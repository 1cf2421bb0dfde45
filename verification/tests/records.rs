use datafix::number::Number;
use datafix::result::DataError;
use datafix::serialization::builtins::codecs::{ArcCodec, DynamicCodec};
use datafix::serialization::builtins::recursive::Placeholder;
use datafix::serialization::builtins::record_builder::MapCodecBuilder;
use datafix::serialization::json::{Json, JsonOps};
use datafix::serialization::ops::CodecOps;
use datafix::serialization::views::{CodecViews, MapView, MapViewMut};
use datafix::serialization::{Codec, CodecAdapters, Codecs, DefaultCodec};

#[derive(Clone, Debug, PartialEq)]
struct GameConfig {
    volume: i32,
    gamma: i32,
    render_distance: u8,
}

impl GameConfig {
    fn volume(&self) -> &i32 {
        &self.volume
    }

    fn gamma(&self) -> &i32 {
        &self.gamma
    }

    fn render_distance(&self) -> &u8 {
        &self.render_distance
    }

    fn new(volume: i32, gamma: i32, render_distance: u8) -> Self {
        GameConfig { volume, gamma, render_distance }
    }
}

fn game_config_codec() -> impl Codec<GameConfig, Json, JsonOps> {
    MapCodecBuilder::new()
        .field(i32::codec().field_of("volume", GameConfig::volume))
        .field(i32::codec().field_of("gamma", GameConfig::gamma))
        .field(u8::codec().field_of("render_distance", GameConfig::render_distance))
        .build(|((((), volume), gamma), render_distance)| {
            GameConfig::new(volume, gamma, render_distance)
        })
}

#[test]
fn record_round_trips() {
    let config = GameConfig::new(100, 50, 12);
    let codec = game_config_codec();
    let mut encoded = codec.encode(&JsonOps, &config).unwrap();
    let decoded = codec.decode(&JsonOps, &mut encoded).unwrap();
    assert_eq!(config, decoded);
}

#[test]
fn record_writes_one_entry_for_each_field() {
    let config = GameConfig::new(100, 50, 12);
    let encoded = game_config_codec().encode(&JsonOps, &config).unwrap();
    let lens = JsonOps.get_map(&encoded).unwrap();
    let mut keys = lens.keys();
    keys.sort();
    assert_eq!(keys, vec!["gamma".to_string(), "render_distance".to_string(), "volume".to_string()]);
    assert_eq!(
        JsonOps.get_number(lens.get("volume").unwrap()),
        Ok(Number::from_bits(100.0_f64.to_bits()))
    );
}

#[test]
fn record_ignores_unknown_keys() {
    let config = GameConfig::new(100, 50, 12);
    let codec = game_config_codec();
    let mut encoded = codec.encode(&JsonOps, &config).unwrap();
    JsonOps
        .get_map_mut(&mut encoded)
        .unwrap()
        .set("wrender_distance", JsonOps.create_string("ok"));
    let decoded = codec.decode(&JsonOps, &mut encoded).unwrap();
    assert_eq!(config, decoded);
}

#[test]
fn record_reports_a_missing_field() {
    let config = GameConfig::new(100, 50, 12);
    let codec = game_config_codec();
    let mut encoded = codec.encode(&JsonOps, &config).unwrap();
    JsonOps.get_map_mut(&mut encoded).unwrap().remove("gamma").unwrap();
    assert_eq!(
        codec.decode(&JsonOps, &mut encoded),
        Err(DataError::KeyNotFound("gamma".to_string()))
    );
}

#[test]
fn record_rejects_what_is_not_a_map() {
    let mut node = JsonOps.create_boolean(&true);
    let result = game_config_codec().decode(&JsonOps, &mut node);
    assert!(matches!(result, Err(DataError::ShapeMismatch { .. })));
}

#[derive(Clone, Debug, PartialEq)]
struct Profile {
    name: String,
    nickname: Option<String>,
}

impl Profile {
    fn name(&self) -> &String {
        &self.name
    }

    fn nickname(&self) -> &Option<String> {
        &self.nickname
    }
}

fn profile_codec() -> impl Codec<Profile, Json, JsonOps> {
    MapCodecBuilder::new()
        .field(String::codec().field_of("name", Profile::name))
        .field(String::codec().optional_field_of("nickname", Profile::nickname))
        .build(|(((), name), nickname)| Profile { name, nickname })
}

#[test]
fn optional_field_is_left_out_when_unset() {
    let profile = Profile { name: "Ada".to_string(), nickname: None };
    let codec = profile_codec();
    let mut encoded = codec.encode(&JsonOps, &profile).unwrap();
    assert_eq!(JsonOps.get_map(&encoded).unwrap().keys(), vec!["name".to_string()]);
    assert!(JsonOps.get_map(&encoded).unwrap().get("nickname").is_err());

    let decoded = codec.decode(&JsonOps, &mut encoded).unwrap();
    assert_eq!(decoded, profile);
    assert_eq!(decoded.nickname, None);
}

#[test]
fn optional_field_is_written_when_set() {
    let profile = Profile { name: "Ada".to_string(), nickname: Some("Countess".to_string()) };
    let codec = profile_codec();
    let mut encoded = codec.encode(&JsonOps, &profile).unwrap();
    let mut keys = JsonOps.get_map(&encoded).unwrap().keys();
    keys.sort();
    assert_eq!(keys, vec!["name".to_string(), "nickname".to_string()]);
    let decoded = codec.decode(&JsonOps, &mut encoded).unwrap();
    assert_eq!(decoded, profile);
}

#[test]
fn optional_field_survives_an_unrelated_extra_key() {
    let profile = Profile { name: "Ada".to_string(), nickname: None };
    let codec = profile_codec();
    let mut encoded = codec.encode(&JsonOps, &profile).unwrap();
    JsonOps.get_map_mut(&mut encoded).unwrap().set("age", JsonOps.create_unit());
    let decoded = codec.decode(&JsonOps, &mut encoded).unwrap();
    assert_eq!(decoded, profile);
}

#[test]
fn optional_field_passes_on_a_failure_of_its_codec() {
    let profile = Profile { name: "Ada".to_string(), nickname: None };
    let codec = profile_codec();
    let mut encoded = codec.encode(&JsonOps, &profile).unwrap();
    JsonOps.get_map_mut(&mut encoded).unwrap().set("nickname", JsonOps.create_boolean(&false));
    let result = codec.decode(&JsonOps, &mut encoded);
    assert!(matches!(result, Err(DataError::ShapeMismatch { .. })));
}

#[derive(Clone, Debug, PartialEq)]
struct LinkedList {
    value: i32,
    next: Option<Box<LinkedList>>,
}

impl LinkedList {
    fn value(&self) -> &i32 {
        &self.value
    }

    fn next(&self) -> &Option<Box<LinkedList>> {
        &self.next
    }
}

fn chain(length: i32) -> LinkedList {
    let mut list = LinkedList { value: length, next: None };
    let mut i = length - 1;
    while i > 0 {
        list = LinkedList { value: i, next: Some(Box::new(list)) };
        i -= 1;
    }
    list
}

fn linked_list_codec() -> impl Codec<LinkedList, Json, JsonOps> {
    Codecs::recursive(|codec: DynamicCodec<LinkedList, Json, JsonOps>| {
        MapCodecBuilder::new()
            .field(i32::codec().field_of("value", LinkedList::value))
            .field(codec.boxed().optional_field_of("next", LinkedList::next))
            .build(|(((), value), next)| LinkedList { value, next })
    })
}

#[test]
fn recursive_codec_round_trips_chains() {
    let codec = linked_list_codec();
    for length in [1, 2, 3, 10] {
        let list = chain(length);
        let mut encoded = codec.encode(&JsonOps, &list).unwrap();
        let decoded = codec.decode(&JsonOps, &mut encoded).unwrap();
        assert_eq!(decoded, list);
    }
}

#[test]
fn recursive_codec_nests_the_tail_under_next() {
    let codec = linked_list_codec();
    let encoded = codec.encode(&JsonOps, &chain(2)).unwrap();
    let outer = JsonOps.get_map(&encoded).unwrap();
    let inner = JsonOps.get_map(outer.get("next").unwrap()).unwrap();
    assert_eq!(
        JsonOps.get_number(inner.get("value").unwrap()),
        Ok(Number::from_bits(2.0_f64.to_bits()))
    );
    assert!(inner.get("next").is_err());
}

#[test]
fn recursive_codec_calls_its_builder_once() {
    let calls = std::rc::Rc::new(std::cell::Cell::new(0));
    let counter = calls.clone();
    let codec = Codecs::recursive(move |codec: DynamicCodec<LinkedList, Json, JsonOps>| {
        counter.set(counter.get() + 1);
        MapCodecBuilder::new()
            .field(i32::codec().field_of("value", LinkedList::value))
            .field(codec.boxed().optional_field_of("next", LinkedList::next))
            .build(|(((), value), next)| LinkedList { value, next })
    });
    assert_eq!(calls.get(), 1);
    let list = chain(5);
    let mut encoded = codec.encode(&JsonOps, &list).unwrap();
    assert_eq!(codec.decode(&JsonOps, &mut encoded), Ok(list));
    assert_eq!(calls.get(), 1);
}

#[test]
fn a_filled_cell_hands_the_call_to_its_codec() {
    let calls = std::rc::Rc::new(std::cell::Cell::new(0));
    let counter = calls.clone();
    let slot = Placeholder::new(move |_codec: DynamicCodec<i32, Json, JsonOps>| {
        counter.set(counter.get() + 1);
        i32::codec()
    });
    let filled = Some(i32::codec().bounded(0..10).arc());
    let mut encoded: Json = slot.encode_through(&filled, &JsonOps, &7).unwrap();
    assert_eq!(encoded, JsonOps.create_number(&Number::from_bits(7.0_f64.to_bits())));
    assert_eq!(slot.decode_through(&filled, &JsonOps, &mut encoded), Ok(7));
    assert!(slot.encode_through(&filled, &JsonOps, &70).is_err());
    assert_eq!(calls.get(), 0);
}

#[test]
fn an_empty_cell_has_the_builder_build_for_the_call() {
    let calls = std::rc::Rc::new(std::cell::Cell::new(0));
    let counter = calls.clone();
    let slot = Placeholder::new(move |_codec: DynamicCodec<i32, Json, JsonOps>| {
        counter.set(counter.get() + 1);
        i32::codec()
    });
    assert!(slot.target().is_none());
    let empty = None;
    let mut encoded: Json = slot.encode_through(&empty, &JsonOps, &7).unwrap();
    assert_eq!(encoded, JsonOps.create_number(&Number::from_bits(7.0_f64.to_bits())));
    assert_eq!(calls.get(), 1);
    assert_eq!(slot.decode_through(&empty, &JsonOps, &mut encoded), Ok(7));
    assert_eq!(calls.get(), 2);
    assert_eq!(slot.encode(&JsonOps, &8), Ok(JsonOps.create_number(&Number::from_bits(8.0_f64.to_bits()))));
    assert_eq!(calls.get(), 3);

    slot.install(i32::codec().arc());
    assert!(slot.target().is_some());
    assert_eq!(slot.encode(&JsonOps, &9), Ok(JsonOps.create_number(&Number::from_bits(9.0_f64.to_bits()))));
    assert_eq!(calls.get(), 3);
}

#[test]
fn placeholder_is_pointed_at_the_finished_codec() {
    let kept: std::rc::Rc<std::cell::RefCell<Option<ArcCodec<LinkedList, Json, JsonOps>>>> =
        std::rc::Rc::new(std::cell::RefCell::new(None));
    let keeper = kept.clone();
    let calls = std::rc::Rc::new(std::cell::Cell::new(0));
    let counter = calls.clone();
    let codec = Codecs::recursive(move |placeholder: DynamicCodec<LinkedList, Json, JsonOps>| {
        counter.set(counter.get() + 1);
        let shared = placeholder.arc();
        *keeper.borrow_mut() = Some(shared.clone());
        MapCodecBuilder::new()
            .field(i32::codec().field_of("value", LinkedList::value))
            .field(shared.boxed().optional_field_of("next", LinkedList::next))
            .build(|(((), value), next)| LinkedList { value, next })
    });
    let placeholder = kept.borrow_mut().take().unwrap();
    for length in [1, 2, 4] {
        let list = chain(length);
        let through = placeholder.encode(&JsonOps, &list);
        assert_eq!(through, codec.encode(&JsonOps, &list));
        let mut left = through.unwrap();
        let mut right = left.duplicate();
        assert_eq!(
            placeholder.decode(&JsonOps, &mut left),
            codec.decode(&JsonOps, &mut right)
        );
    }
    assert_eq!(calls.get(), 1);
}
