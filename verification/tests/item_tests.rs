use fre::rulebook::{settings_file, settings_search_step, SettingsStep};
use fre::action::definition::ActionDef;
use fre::asset::Asset;
use fre::common::choice::Input;
use fre::common::identifier::Identifier;
use fre::common::meta::HasItemMeta;
use fre::constructor::Constructor;
use fre::error::{ConstructorError, FreError};
use fre::feature::Feature;
use fre::object::{Object, ObjectIndex};
use fre::rulebook::registry::{RegistryItem, RulebookRegistry};
use fre::rulebook::value::RulebookValue;
use fre::rulebook::{RulebookMeta, RulebookSettings, RulesetInfo};
use fre::stat::statblock::{StatBlock, StatBlockField, StatSource};
use fre::stat::value::{IndexValue, StatValue};

fn png_bytes() -> Vec<u8> {
    let image = image::RgbImage::from_pixel(2, 2, image::Rgb([200, 10, 10]));
    let mut buffer = std::io::Cursor::new(Vec::new());
    image.write_to(&mut buffer, image::ImageFormat::Png).unwrap();
    buffer.into_inner()
}

#[test]
fn feature_create() {
    let mut feature = Feature::new("Rage".to_string());
    assert_eq!(feature.get_meta().name(), "Rage");
    assert_eq!(feature.get_meta().kind(), "Feature");
    assert!(feature.setup().is_none());
    feature.set_apply(vec![1, 2]);
    feature.set_setup(vec![3]);
    feature.set_repeats_function(vec![4]);
    assert_eq!(feature.apply(), Some(&vec![1, 2]));
    assert_eq!(feature.setup(), Some(&vec![3]));
    let copy = feature.clone();
    assert_eq!(copy, feature);
    let id = feature.id();
    assert_eq!(id.uuid(), feature.get_meta().uuid());
    assert!(id.is_kind("Feature"));
}

#[test]
fn object_create() {
    let mut stats = StatBlock::new();
    stats.set_field("hp", StatBlockField::Stat(StatSource::new(StatValue::Int(7))), false);
    let object = Object::new("Goblin", stats);
    assert_eq!(object.get_meta().name(), "Goblin");
    assert_eq!(object.get_meta().kind(), "Object");
    assert_eq!(object.stats().get("hp"), StatValue::Int(7));
    assert_eq!(object.applied_stats().get("hp"), StatValue::Int(7));
    assert!(object.assets().is_empty());
    assert!(object.features().is_empty());
}

#[test]
fn object_ops() {
    let mut object = Object::new("Goblin", StatBlock::new());
    let feature = Feature::new("Rage".to_string());
    let asset = Asset::load("Portrait", Some("png"), &png_bytes()).unwrap();
    object.add_features(vec![&feature]);
    object.add_assets(vec![&asset]);
    assert_eq!(object.features(), &vec![feature.get_meta().uuid()]);
    assert_eq!(object.assets(), &vec![asset.get_meta().uuid()]);

    object.index_new("", "hp", StatBlockField::Stat(StatSource::new(StatValue::Int(5))));
    object.index_new("info", "name", StatBlockField::Constant(StatValue::String("gob".to_string())));
    match object.index("", "hp") {
        ObjectIndex::Stat(p) => assert_eq!(p, "hp"),
        _ => panic!("expected a stat"),
    }
    match object.index("", "info") {
        ObjectIndex::Table(p) => assert_eq!(p, "info"),
        _ => panic!("expected a table"),
    }
    match object.index("info", "name") {
        ObjectIndex::Constant(v) => assert_eq!(v, StatValue::String("gob".to_string())),
        _ => panic!("expected a constant"),
    }
    assert!(matches!(object.index("", "missing"), ObjectIndex::Nil));
    assert_eq!(object.provider_get("hp"), Some(StatValue::Int(5)));
    assert!(object.can_stat_set("hp", &StatValue::Int(9)));
    assert!(object.can_resolve(1, &StatValue::Int(9)));
    let pending = object.stat_set("hp", StatValue::Int(9));
    assert!(pending.is_empty());
    assert_eq!(object.provider_get("hp"), Some(StatValue::Int(9)));
    // The stats as defined stay as they were.
    assert_eq!(object.stats().get("hp"), StatValue::Empty);

    let mut indices = Vec::new();
    object.get_indices(&mut indices);
    assert_eq!(indices.len(), 7);
    assert_eq!(indices[5], ("hp".to_string(), IndexValue::Int(9)));
    assert_eq!(indices[6], ("info.name".to_string(), IndexValue::String("gob".to_string())));
}

#[test]
fn asset_create() {
    let asset = Asset::load("Portrait", Some("png"), &png_bytes()).unwrap();
    assert_eq!(asset.mime(), "image/png");
    assert!(asset.is_image());
    assert_eq!(asset.get_asset_type(), "image");
    assert_eq!(asset.get_meta().name(), "Portrait");
    let bytes = base64::Engine::decode(&base64::prelude::BASE64_STANDARD, asset.data()).unwrap();
    assert_eq!(&bytes[..8], &[0x89, b'P', b'N', b'G', 0x0D, 0x0A, 0x1A, 0x0A]);
    let mut indices = Vec::new();
    asset.get_indices(&mut indices);
    assert_eq!(indices.last().unwrap(), &("asset_type".to_string(), IndexValue::String("image".to_string())));
}

#[test]
fn asset_refusals() {
    match Asset::load("x", None, &[]) {
        Err(FreError::FileTypeNotValidAsset(m)) => assert_eq!(m, "NONE"),
        _ => panic!("expected a refusal"),
    }
    match Asset::load("x", Some("txt"), &[]) {
        Err(FreError::FileTypeNotValidAsset(m)) => assert_eq!(m, "\"txt\""),
        _ => panic!("expected a refusal"),
    }
    match Asset::load("x", Some("png"), &[1, 2, 3]) {
        Err(FreError::ImageError(m)) => assert!(!m.is_empty()),
        _ => panic!("expected an image error"),
    }
}

#[test]
fn constructor_steps() {
    let mut constructor = Constructor::new("Character");
    assert_eq!(constructor.get_meta().kind(), "Constructor");
    let mut first = Input::new();
    first.integer("level".to_string(), Some(1));
    constructor.step("basics".to_string(), first);
    constructor.step("extras".to_string(), Input::new());
    constructor.step("basics".to_string(), Input::new());
    let names: Vec<&str> = constructor.steps().iter().map(|(k, _)| k.as_str()).collect();
    assert_eq!(names, vec!["basics", "extras"]);
    assert!(constructor.get_step(0).unwrap().iter().is_empty());
    match constructor.get_step(2) {
        Err(FreError::ConstructorError(ConstructorError::ConstructorAttemptToIndexEmptyStep(i))) => assert_eq!(i, 2),
        _ => panic!("expected a missing step"),
    }
    constructor.set_finalize(vec![9]);
    assert_eq!(constructor.finalize(), Some(&vec![9]));
}

#[test]
fn action_definition() {
    let mut action = ActionDef::new("Strike");
    assert_eq!(action.get_meta().kind(), "Action");
    assert!(action.resolver().is_none());
    action.set_resolver(vec![5]);
    assert_eq!(action.resolver(), Some(&vec![5]));
}

fn settings(name: &str, authors: Option<Vec<String>>, includes: Option<Vec<String>>) -> RulebookSettings {
    RulebookSettings::new(
        name.to_string(),
        "1.0".to_string(),
        RulesetInfo::new("Pathfinder 2e".to_string(), Some("pf2e".to_string())),
        None,
        None,
        authors,
        includes,
    )
}

#[test]
fn rulebook_settings() {
    let mut s = settings("My Book", Some(vec!["Ann".to_string(), "Bo".to_string()]), None);
    assert_eq!(s.pak_file_name(), "my-book-1.0.rulebook");
    assert_eq!(s.cover_asset_name(), "My Book Cover");
    assert_eq!(s.pak_authors(), "Ann, Bo");
    assert_eq!(s.pak_description(), "");
    assert_eq!(
        s.uuid(),
        uuid::Uuid::new_v5(&uuid::Uuid::NAMESPACE_X500, b"My Book|1.0").as_u128()
    );
    assert_eq!(s.take_includes(), vec!["**/*.lua".to_string()]);
    assert!(s.includes().is_none());
    let mut s = settings("Ünïcode Book", None, Some(vec!["a/*.lua".to_string()]));
    assert_eq!(s.pak_file_name(), "ünïcode-book-1.0.rulebook");
    assert_eq!(s.pak_authors(), "");
    assert_eq!(s.take_includes(), vec!["a/*.lua".to_string()]);
    assert_eq!(s.name(), "Ünïcode Book");
    assert_eq!(s.version(), "1.0");
    assert_eq!(s.ruleset().title(), "Pathfinder 2e");
}

#[test]
fn ruleset_names() {
    let info = RulesetInfo::new("Pathfinder 2e".to_string(), Some("pf2e".to_string()));
    assert!(info.is_named("pf2e"));
    assert!(info.is_named("Pathfinder 2e"));
    assert!(!info.is_named("dnd"));
    let parsed: RulesetInfo = "Dnd".parse().unwrap();
    assert_eq!(parsed.title(), "Dnd");
    assert!(parsed.short().is_none());
}

#[test]
fn rulebook_values() {
    let mut value: RulebookValue<u32> = RulebookValue::from(5);
    assert!(value.is_value());
    assert_eq!(value.as_value(), Some(&5));
    assert_eq!(value.take_value(), Some(5));
    assert!(value.is_ref());
    assert_eq!(value.take_value(), None);
    let reference: RulebookValue<u32> = RulebookValue::try_from_identifier(Identifier::new(3, "Object"), "Object").unwrap();
    assert!(reference.is_ref());
    match RulebookValue::<u32>::try_from_identifier(Identifier::new(3, "Object"), "Feature") {
        Err(FreError::IdentifierTypeMismatch(found, expected)) => {
            assert_eq!(found, "Object");
            assert_eq!(expected, "Feature");
        },
        _ => panic!("expected a mismatch"),
    }
}

#[test]
fn registry_keeps_first() {
    let mut registry = RulebookRegistry::new();
    let feature = Feature::new("Rage".to_string());
    let mut renamed = feature.clone();
    renamed.get_meta_mut().set_desc("second".to_string());
    let id = registry.register(RegistryItem::Feature(feature)).unwrap();
    let again = registry.register(RegistryItem::Feature(renamed)).unwrap();
    assert_eq!(id, again);
    assert_eq!(registry.features.len(), 1);
    assert_eq!(registry.features[&id.uuid()].get_meta().desc(), "");
    match registry.register(RegistryItem::Other("Table".to_string())) {
        Err(FreError::CannotRegisterType(n)) => assert_eq!(n, "Table"),
        _ => panic!("expected a refusal"),
    }
    let (objects, features, assets, constructors) = registry.explode();
    assert!(objects.is_empty() && assets.is_empty() && constructors.is_empty());
    assert_eq!(features.len(), 1);
}

#[test]
fn rulebook_meta_defaults() {
    let meta = RulebookMeta::default();
    assert_eq!(meta.ruleset.title(), "");
    assert!(meta.deps.is_empty());
    assert!(meta.cover.is_none());
}

#[test]
fn settings_search_steps() {
    assert_eq!(settings_file(), "familiar.config.json");
    assert_eq!(settings_search_step(true, Some("familiar.config.json"), false, true), SettingsStep::ReadThis);
    assert_eq!(settings_search_step(true, Some("main.lua"), false, true), SettingsStep::GoUp);
    assert_eq!(settings_search_step(false, Some("book"), true, true), SettingsStep::ReadInFolder);
    assert_eq!(settings_search_step(false, Some("book"), false, true), SettingsStep::GoUp);
    assert_eq!(settings_search_step(false, None, false, false), SettingsStep::NotFound);
}

#[test]
fn asset_extensions() {
    assert!(Asset::accepts_extension("png"));
    assert!(Asset::accepts_extension("jpg"));
    assert!(!Asset::accepts_extension("PNG"));
    assert!(!Asset::accepts_extension("txt"));
}
