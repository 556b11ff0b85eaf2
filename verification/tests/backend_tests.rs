use fre::asset::Asset;
use fre::backend::cache::Cache;
use fre::backend::constructor::{
    constructor_cache_character_creator, constructor_get_step, constructor_release_ref, find_character_creator,
};
use fre::backend::error::FamiliarError;
use fre::backend::rulebook::{available_rulesets, rulebook_covers, rulebooks_in_ruleset};
use fre::common::choice::Input;
use fre::common::meta::HasItemMeta;
use fre::constructor::Constructor;
use fre::error::{ConstructorError, FreError};
use fre::feature::Feature;
use fre::rulebook::{RulebookMeta, RulesetInfo};

fn creator(name: &str, tagged: bool) -> Constructor {
    let mut c = Constructor::new(name);
    if tagged {
        c.get_meta_mut().add_tags(vec!["Character Creator".to_string()]);
    }
    let mut step = Input::new();
    step.integer("level".to_string(), Some(1));
    c.step("basics".to_string(), step);
    c
}

#[test]
fn cache_counts_references() {
    let mut cache: Cache<Feature> = Cache::new();
    let feature = Feature::new("Rage".to_string());
    let id = feature.get_meta().uuid();
    cache.cache(feature.clone());
    cache.cache(feature);
    assert_eq!(cache.count(id), 2);
    assert!(cache.get(id).is_some());
    cache.decrement_count(id);
    assert_eq!(cache.count(id), 1);
    assert!(cache.get(id).is_some());
    cache.decrement_count(id);
    assert_eq!(cache.count(id), 0);
    assert!(cache.get(id).is_none());
    cache.decrement_count(id);
    assert!(cache.get(id).is_none());
    cache.increment_count(id);
    assert!(cache.get(id).is_none());
}

#[test]
fn character_creator_commands() {
    let list = vec![creator("A", false), creator("B", true), creator("C", true)];
    let found = find_character_creator(list, "pf2e").unwrap();
    assert_eq!(found.get_meta().name(), "B");
    match find_character_creator(vec![creator("A", false)], "pf2e") {
        Err(FamiliarError::UnableToFindCharacterConstructorForRuleset(r)) => assert_eq!(r, "pf2e"),
        _ => panic!("expected a missing creator"),
    }

    let mut cache: Cache<Constructor> = Cache::new();
    let list = vec![creator("A", false), creator("B", true)];
    let expected = list[1].get_meta().uuid();
    let text = constructor_cache_character_creator("pf2e", list, &mut cache).unwrap();
    assert_eq!(text, uuid::Uuid::from_u128(expected).to_string());

    let step = constructor_get_step(&text, 0, &cache).unwrap();
    assert_eq!(step.iter().len(), 1);
    match constructor_get_step(&text, 1, &cache) {
        Err(FamiliarError::FreError(FreError::ConstructorError(ConstructorError::ConstructorAttemptToIndexEmptyStep(i)))) => {
            assert_eq!(i, 1)
        },
        _ => panic!("expected a missing step"),
    }
    match constructor_get_step("not a uuid", 0, &cache) {
        Err(FamiliarError::UuidError(_)) => {},
        _ => panic!("expected a uuid error"),
    }
    let other = uuid::Uuid::from_u128(5).to_string();
    match constructor_get_step(&other, 0, &cache) {
        Err(FamiliarError::CacheObjectNotFound { cache_name, uuid }) => {
            assert_eq!(cache_name, "Constructor");
            assert_eq!(uuid, 5);
        },
        _ => panic!("expected a cache miss"),
    }
    constructor_release_ref(&text, &mut cache).unwrap();
    assert!(cache.get(expected).is_none());
    assert!(constructor_release_ref("bad", &mut cache).is_err());
}

fn meta(title: &str, short: Option<&str>, cover: Option<Asset>) -> RulebookMeta {
    RulebookMeta::new(RulesetInfo::new(title.to_string(), short.map(|s| s.to_string())), cover)
}

#[test]
fn rulesets_and_covers() {
    let metas = vec![meta("Pathfinder", Some("pf2e"), None), meta("Dnd", None, None), meta("Pathfinder", Some("pf"), None)];
    let rulesets = available_rulesets(&metas);
    let titles: Vec<&str> = rulesets.iter().map(|r| r.title()).collect();
    assert_eq!(titles, vec!["Pathfinder", "Dnd"]);
    assert_eq!(rulesets[0].short(), Some(&"pf2e".to_string()));

    let image = image::RgbImage::from_pixel(1, 1, image::Rgb([0, 0, 0]));
    let mut buffer = std::io::Cursor::new(Vec::new());
    image.write_to(&mut buffer, image::ImageFormat::Png).unwrap();
    let cover = Asset::load("Cover", Some("png"), &buffer.into_inner()).unwrap();
    let books = vec![
        (meta("Pathfinder", Some("pf2e"), Some(cover.clone())), 1),
        (meta("Dnd", None, None), 2),
        (meta("Pathfinder", None, None), 3),
    ];
    let chosen = rulebooks_in_ruleset(books, "Pathfinder");
    let tags: Vec<i32> = chosen.iter().map(|(_, t)| *t).collect();
    assert_eq!(tags, vec![1, 3]);
    let covers = rulebook_covers(&chosen);
    assert_eq!(covers.len(), 1);
    assert_eq!(covers[0].get_meta().name(), "Cover");
    let by_short = rulebooks_in_ruleset(chosen, "pf2e");
    assert_eq!(by_short.len(), 1);
}

#[test]
fn familiar_error_helpers() {
    match FamiliarError::cache_object_not_found("Constructor", 3) {
        FamiliarError::CacheObjectNotFound { cache_name, uuid } => {
            assert_eq!(cache_name, "Constructor");
            assert_eq!(uuid, 3);
        },
        _ => panic!(),
    }
    match FamiliarError::missing_character_constructor("pf2e") {
        FamiliarError::UnableToFindCharacterConstructorForRuleset(r) => assert_eq!(r, "pf2e"),
        _ => panic!(),
    }
}
