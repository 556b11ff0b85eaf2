use fre::common::choice::{ChoiceSource, Input, InputValue};
use fre::common::deps::RulebookDependency;
use fre::common::identifier::Identifier;
use fre::common::meta::ItemMeta;
use fre::common::util::{flaten_hm_r, get_mime_type, FlattenMap};
use fre::error::FreError;
use fre::stat::query::Query;
use fre::stat::value::{IndexValue, StatValue};

fn names(input: &Input) -> Vec<String> {
    input.iter().iter().map(|(k, _)| k.clone()).collect()
}

#[test]
fn item_meta_tags() {
    let mut meta = ItemMeta::new("Sword", "Object");
    assert_eq!(meta.name(), "Sword");
    assert_eq!(meta.kind(), "Object");
    assert_eq!(meta.desc(), "");
    assert!(meta.tags().is_empty());
    meta.add_tags(vec!["a".to_string(), "b".to_string(), "a".to_string()]);
    assert_eq!(meta.tags(), &vec!["a".to_string(), "b".to_string()]);
    assert!(meta.has_tag("a"));
    assert!(!meta.has_tag("c"));
    meta.add_tags(vec!["c".to_string(), "b".to_string()]);
    assert_eq!(meta.tags(), &vec!["a".to_string(), "b".to_string(), "c".to_string()]);
    meta.set_tags(vec!["x".to_string(), "x".to_string()]);
    assert_eq!(meta.tags(), &vec!["x".to_string()]);
    meta.clear_tags();
    assert!(meta.tags().is_empty());
    meta.set_desc("sharp".to_string());
    assert_eq!(meta.desc(), "sharp");
}

#[test]
fn item_meta_indices() {
    let mut meta = ItemMeta::new("Sword", "Object");
    meta.add_tags(vec!["weapon".to_string()]);
    let mut indices = vec![("before".to_string(), IndexValue::Void)];
    meta.get_indices(&mut indices);
    let uuid = uuid::Uuid::from_u128(meta.uuid()).to_string();
    assert_eq!(
        indices,
        vec![
            ("before".to_string(), IndexValue::Void),
            ("name".to_string(), IndexValue::String("Sword".to_string())),
            ("desc".to_string(), IndexValue::String(String::new())),
            ("type".to_string(), IndexValue::String("Object".to_string())),
            ("uuid".to_string(), IndexValue::String(uuid)),
            ("tags".to_string(), IndexValue::Array(vec![IndexValue::String("weapon".to_string())])),
        ]
    );
}

#[test]
fn item_meta_fresh_identifiers() {
    let a = ItemMeta::new("A", "Object");
    let b = ItemMeta::new("A", "Object");
    assert_ne!(a.uuid(), b.uuid());
}

#[test]
fn identifier_ops() {
    let id = Identifier::new(42, "Object");
    assert_eq!(id.uuid(), 42);
    assert_eq!(id.rulebook(), None);
    assert!(id.is_kind("Object"));
    assert!(!id.is_kind("Feature"));
    assert_eq!(id.kind(), "Object");
    let id = id.from_rulebook(7);
    assert_eq!(id.rulebook(), Some(7));
    let mut other = Identifier::default();
    other.set_rulebook(9);
    assert_eq!(other.rulebook(), Some(9));
    assert_eq!(other.uuid(), 0);
    let mut indices = Vec::new();
    id.get_indices(&mut indices);
    assert_eq!(
        indices,
        vec![
            ("rulebook".to_string(), IndexValue::String(uuid::Uuid::from_u128(7).to_string())),
            ("id".to_string(), IndexValue::String(uuid::Uuid::from_u128(42).to_string())),
            ("type".to_string(), IndexValue::String("Object".to_string())),
        ]
    );
}

fn v5(name: &str) -> u128 {
    uuid::Uuid::new_v5(&uuid::Uuid::NAMESPACE_X500, name.as_bytes()).as_u128()
}

#[test]
fn dependency_parse() {
    let dep = RulebookDependency::parse("core@1.0").unwrap();
    assert_eq!(dep.rulebook(), "core");
    assert_eq!(dep.version(), "1.0");
    assert!(!dep.is_optional());
    assert_eq!(dep.uuid(), v5("core|1.0"));

    let dep = RulebookDependency::parse("core@1.0?").unwrap();
    assert_eq!(dep.version(), "1.0");
    assert!(dep.is_optional());
    assert_eq!(dep.uuid(), v5("core|1.0"));

    let dep = RulebookDependency::parse("a@b@c").unwrap();
    assert_eq!(dep.rulebook(), "a");
    assert_eq!(dep.version(), "b");

    let made = RulebookDependency::new("core".to_string(), "1.0".to_string());
    assert_eq!(made.uuid(), v5("core|1.0"));
    assert!(!made.is_optional());
}

#[test]
fn dependency_missing_version() {
    match RulebookDependency::parse("core?") {
        Err(FreError::InvalidDepencyString(m)) => {
            assert_eq!(m, "Missing version. This should be the format: `core@(version)`")
        },
        other => panic!("unexpected {other:?}"),
    }
}

#[test]
fn mime_types() {
    assert_eq!(get_mime_type("png").unwrap(), "image/png");
    assert_eq!(get_mime_type("jpg").unwrap(), "image/jpeg");
    assert_eq!(get_mime_type("jpeg").unwrap(), "image/jpeg");
    assert_eq!(get_mime_type("webp").unwrap(), "image/webp");
    match get_mime_type("gif") {
        Err(FreError::MissingMimeType(e)) => assert_eq!(e, "gif"),
        other => panic!("unexpected {other:?}"),
    }
}

#[test]
fn flatten_helpers() {
    let mut map = vec![("a".to_string(), 1), ("b".to_string(), 2)];
    let before = map.clone();
    flaten_hm_r(&mut map, &Vec::new(), "root");
    assert_eq!(map, before);
    assert!(map.flatten_mut().is_empty());
    assert_eq!(map, before);
}

#[test]
fn input_questions() {
    let mut input = Input::new();
    input.string("name".to_string(), Some("Bob".to_string()));
    input.integer("age".to_string(), None);
    input.number("height".to_string(), Some(1.5f64.to_bits()));
    assert_eq!(names(&input), vec!["name", "age", "height"]);

    // Asking again under a name replaces the question in its place.
    input.integer("name".to_string(), Some(3));
    assert_eq!(names(&input), vec!["name", "age", "height"]);
    assert!(input.iter()[0].1.is_int());
    assert!(input.iter()[2].1.is_number());

    let mut scores = Input::new();
    scores.integer("str".to_string(), Some(10));
    scores.string("note".to_string(), None);
    scores.integer("dex".to_string(), Some(12));
    input.point_buy("scores".to_string(), scores, None, Some(18));
    match &input.iter()[3].1 {
        InputValue::PointBuy { values, points, max } => {
            assert_eq!(*points, 1);
            assert_eq!(*max, Some(18));
            let keys: Vec<&str> = values.iter().map(|(k, _)| k.as_str()).collect();
            assert_eq!(keys, vec!["str", "dex"]);
        },
        other => panic!("unexpected {other:?}"),
    }

    input.choice("class".to_string(), ChoiceSource::Values(vec![StatValue::String("fighter".to_string())]), None, Some(2));
    match &input.iter()[4].1 {
        InputValue::Choice { values, number_of_selections, number_of_choices } => {
            assert_eq!(values.len(), 1);
            assert_eq!(*number_of_selections, 2);
            assert_eq!(*number_of_choices, 1);
        },
        other => panic!("unexpected {other:?}"),
    }
    input.choice("spell".to_string(), ChoiceSource::Query(Query::new("spells".to_string())), Some(3), None);
    assert!(input.iter()[5].1.is_choice_query());

    let mut section = Input::new();
    section.string("title".to_string(), None);
    input.section("extra".to_string(), section);
    let extra = &input.iter()[6].1;
    assert!(extra.is_section());
    assert_eq!(extra.iter().unwrap().len(), 1);
    assert!(input.iter()[0].1.iter().is_none());

    let copy = input.clone();
    assert_eq!(names(&copy), names(&input));
}

#[test]
fn identifier_text_is_hyphenated_hex() {
    let id = Identifier::new(0x0123456789abcdef0123456789abcdef, "Object");
    let mut indices = Vec::new();
    id.get_indices(&mut indices);
    assert_eq!(indices[1], ("id".to_string(), IndexValue::String("01234567-89ab-cdef-0123-456789abcdef".to_string())));
}
