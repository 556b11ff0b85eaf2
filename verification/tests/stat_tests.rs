use fre::stat::path::{join_paths, split_all_dots, split_first_dot, StatBlockPath};
use fre::stat::query::Query;
use fre::stat::statblock::{StatBlock, StatBlockField, StatDerive, StatSource};
use fre::stat::value::{IndexValue, StatValue};

fn text(s: &str) -> StatValue {
    StatValue::String(s.to_string())
}

/// A block with `first_name`, `last_name` and a derive `full_name` reading both.
fn name_block(first: &str, last: &str) -> (StatBlock, u128) {
    let mut block = StatBlock::new();
    block.set_field("first_name", StatBlockField::Stat(StatSource::new(text(first))), false);
    block.set_field("last_name", StatBlockField::Stat(StatSource::new(text(last))), false);
    let mut derive = StatDerive::new(vec![1, 2, 3], vec![StatValue::Empty, StatValue::Empty], text("John Doe"));
    derive.attach(block.get_field_mut("first_name").unwrap());
    derive.attach(block.get_field_mut("last_name").unwrap());
    let id = derive.id();
    block.set_field("full_name", StatBlockField::Derive(derive), false);
    (block, id)
}

#[test]
fn statblock_source() {
    let first_name = StatBlockField::Stat(StatSource::new(text("Jane")));
    let last_name = StatBlockField::Stat(StatSource::new(text("Doe")));
    assert_eq!(first_name.get(), text("Jane"));
    assert_eq!(last_name.get(), text("Doe"));
}

#[test]
fn statblock_derive() {
    let (block, _) = name_block("John", "Doe");
    let full_name = block.get_field("full_name").unwrap();
    assert_eq!(full_name.get(), text("John Doe"));
    let derive = full_name.as_derive().unwrap();
    assert_eq!(derive.params(), &vec![text("John"), text("Doe")]);
}

#[test]
fn statblock() {
    let (block, id) = name_block("John", "Doe");
    assert_eq!(block.get("full_name"), text("John Doe"));

    let mut stat = block.clone();
    assert_eq!(stat.get("full_name"), text("John Doe"));
    let pending = stat.set_stat("first_name", text("Test"));
    assert_eq!(stat.get("first_name"), text("Test"));
    assert_eq!(pending.len(), 1);
    assert_eq!(pending[0].id, id);
    assert_eq!(pending[0].params, vec![text("Test"), text("Doe")]);

    let next = stat.resolve(id, text("Test Doe"));
    assert!(next.is_empty());
    assert_eq!(stat.get("full_name"), text("Test Doe"));
    // The block that was copied keeps its values.
    assert_eq!(block.get("first_name"), text("John"));
    assert_eq!(block.get("full_name"), text("John Doe"));
}

#[test]
fn statblock_nested_read_after_write() {
    let mut block = StatBlock::new();
    block.set_field("a", StatBlockField::Constant(StatValue::Int(1)), false);
    block.set_field("b.c.d", StatBlockField::Constant(StatValue::Int(7)), true);
    assert_eq!(block.get("b.c.d"), StatValue::Int(7));
    assert_eq!(block.get("a"), StatValue::Int(1));
    assert!(block.get_field("b.c").unwrap().is_table());
    assert_eq!(block.get("missing.path"), StatValue::Empty);
    // A path through a field that is not a table leaves the block as it was.
    block.set_field("a.x", StatBlockField::Constant(StatValue::Int(9)), true);
    assert_eq!(block.get("a"), StatValue::Int(1));
    assert!(block.get_field("a.x").is_none());
}

#[test]
fn statblock_set_replaces_in_place() {
    let mut block = StatBlock::new();
    block.set_field("x", StatBlockField::Constant(StatValue::Int(1)), false);
    block.set_field("y", StatBlockField::Constant(StatValue::Int(2)), false);
    block.set_field("x", StatBlockField::Constant(StatValue::Int(3)), false);
    assert_eq!(
        block.as_value(),
        StatValue::Record(vec![("x".to_string(), StatValue::Int(3)), ("y".to_string(), StatValue::Int(2))])
    );
}

#[test]
fn statblock_indices() {
    let mut block = StatBlock::new();
    block.set_field("level", StatBlockField::Stat(StatSource::new(StatValue::Int(3))), false);
    block.set_field("info.name", StatBlockField::Constant(text("Goblin")), true);
    block.set_field("info.query", StatBlockField::Constant(StatValue::Query(Query::new("all".to_string()))), true);
    let mut indices = Vec::new();
    block.get_indices(&mut indices);
    assert_eq!(
        indices,
        vec![
            ("level".to_string(), IndexValue::Int(3)),
            ("info.name".to_string(), IndexValue::String("Goblin".to_string())),
            ("info.query".to_string(), IndexValue::Void),
        ]
    );
}

#[test]
fn stat_value_index_form() {
    let value = StatValue::Array(vec![
        StatValue::Int(1),
        StatValue::Empty,
        StatValue::Array(vec![StatValue::Bool(true)]),
        StatValue::Float(2.5f64.to_bits()),
    ]);
    assert_eq!(
        value.to_index_value(),
        IndexValue::Array(vec![
            IndexValue::Int(1),
            IndexValue::Array(vec![IndexValue::Boolean(true)]),
            IndexValue::Float(2.5f64.to_bits()),
        ])
    );
    assert_eq!(StatSource::new(text("a")).as_pak_value(), IndexValue::String("a".to_string()));
}

#[test]
fn stat_value_queries() {
    assert!(StatValue::Empty.is_none());
    assert!(text("x").is_some());
    assert!(text("x").is_string());
    assert_eq!(text("x").as_string(), Some(&"x".to_string()));
    assert_eq!(StatValue::Int(1).as_string(), None);
    assert_eq!(Query::new("q".to_string()).get_query(), "q");
}

#[test]
fn stat_paths() {
    assert_eq!(split_first_dot("a.b.c"), ("a", Some("b.c")));
    assert_eq!(split_first_dot("abc"), ("abc", None));
    assert_eq!(split_all_dots("a.b.c"), vec!["a", "b", "c"]);
    assert_eq!(join_paths("", "x"), "x");
    assert_eq!(join_paths("a", "b"), "a.b");
    assert_eq!("root".append_path("leaf"), "root.leaf");
    assert_eq!("".append_path("leaf"), "leaf");
    assert_eq!("x.y".next(), ("x", Some("y")));
    assert!("".is_empty());
}

#[test]
fn statblock_sends_checked_before_set() {
    let (block, id) = name_block("John", "Doe");
    assert!(block.can_set_stat("first_name", &text("Jane")));
    assert!(block.can_set_stat("full_name", &text("Jane")));
    assert!(block.can_set_stat("missing", &text("Jane")));
    assert!(block.can_resolve(id, &text("Jane Doe")));
    assert!(block.can_resolve(id + 1, &text("Jane Doe")));

    // A stat whose link names a parameter its derive does not have.
    let mut broken = StatBlock::new();
    let derive = StatDerive::from_parts(7, StatSource::new(text("")), vec![1], vec![StatValue::Empty], 1);
    broken.set_field("reader", StatBlockField::Derive(derive), false);
    let link = fre::stat::statblock::StatDeriveLink::Valid { link: 7, index: 3 };
    broken.set_field("source", StatBlockField::Stat(StatSource::from_parts(text("x"), vec![link])), false);
    assert!(!broken.can_set_stat("source", &text("y")));
    let fits = fre::stat::statblock::StatDeriveLink::Valid { link: 7, index: 0 };
    broken.set_field("source", StatBlockField::Stat(StatSource::from_parts(text("x"), vec![fits])), false);
    assert!(broken.can_set_stat("source", &text("y")));
}

#[test]
fn statblock_flat_round_trip() {
    let (mut block, _) = name_block("John", "Doe");
    block.set_field("info.age", StatBlockField::Constant(StatValue::Int(30)), true);
    let flat: Vec<_> = block.to_flat().into_iter().filter(|(_, _, f)| !f.is_table()).collect();
    let paths: Vec<String> = flat.iter().map(|(p, _, _)| p.clone()).collect();
    assert_eq!(paths, vec!["first_name", "last_name", "full_name", "info.age"]);
    let loaded = StatBlock::from_flat(flat);
    assert_eq!(loaded.get("first_name"), text("John"));
    assert_eq!(loaded.get("full_name"), text("John Doe"));
    assert_eq!(loaded.get("info.age"), StatValue::Int(30));
    assert!(loaded.get_field("info").unwrap().is_table());
}

#[test]
fn statblock_flattened_size() {
    let (mut block, _) = name_block("John", "Doe");
    assert_eq!(block.flattened_size(), 3);
    block.set_field("info.age", StatBlockField::Constant(StatValue::Int(30)), true);
    block.set_field("info.home.town", StatBlockField::Constant(text("Sandpoint")), true);
    assert_eq!(block.flattened_size(), 5);
    assert_eq!(block.flattened_size(), block.to_flat().len());
    assert_eq!(StatBlock::new().flattened_size(), 0);
}

#[test]
fn statblock_copy_keeps_tables() {
    let (mut block, _) = name_block("John", "Doe");
    block.set_field("info.home.town", StatBlockField::Constant(text("Sandpoint")), true);
    let copy = block.clone();
    assert!(copy.get_field("info").unwrap().is_table());
    assert!(copy.get_field("info.home").unwrap().is_table());
    assert!(!copy.get_field("first_name").unwrap().is_table());
    assert_eq!(copy.get("info.home.town"), text("Sandpoint"));
}

#[test]
fn statblock_set_keeps_other_paths() {
    let (mut block, _) = name_block("John", "Doe");
    block.set_field("info.age", StatBlockField::Constant(StatValue::Int(30)), true);
    block.set_field("info.rank", StatBlockField::Constant(StatValue::Int(2)), false);
    assert_eq!(block.get("info.age"), StatValue::Int(30));
    assert_eq!(block.get("first_name"), text("John"));
    // A path through a field that is not a table leaves the block as it was.
    block.set_field("first_name.x", StatBlockField::Constant(StatValue::Int(1)), true);
    assert_eq!(block.get("first_name"), text("John"));
    assert!(block.get_field("first_name.x").is_none());
}

#[test]
fn statblock_copy_keeps_table_order() {
    let mut block = StatBlock::new();
    block.set_field("t.a", StatBlockField::Stat(StatSource::new(StatValue::Int(1))), true);
    block.set_field("t.b", StatBlockField::Constant(StatValue::Int(2)), true);
    block.set_field("c", StatBlockField::Constant(StatValue::Int(3)), true);
    let copy = block.clone();
    assert_eq!(copy.get("t"), block.get("t"));
    assert_eq!(copy.get("t"), StatValue::Record(vec![("a".to_string(), StatValue::Int(1)), ("b".to_string(), StatValue::Int(2))]));
    assert_eq!(copy.as_value(), block.as_value());
    let loaded = StatBlock::from_flat(block.to_flat());
    assert_eq!(loaded.as_value(), block.as_value());
}
