use fre::common::identifier::Identifier;
use fre::lua::iter::LuaIter;
use fre::lua::run::{LuaDepsRun, LuaSourceMeta};
use fre::lua::source::{dependencies_of_tokens, parse_dep_comment, LuaSource};
use fre::lua::tokens::{LuaToken, TokenKind};
use fre::lua::util::LuaTableIndex;

fn token(kind: TokenKind, content: &str) -> LuaToken {
    LuaToken { kind, content: content.to_string() }
}

#[test]
fn table_index_kinds() {
    assert!(LuaTableIndex::Integer(1).is_integer());
    assert!(!LuaTableIndex::String("a".to_string()).is_integer());
}

#[test]
fn dep_comments() {
    let mut deps = Vec::new();
    parse_dep_comment("---@dep self.attributes.str", &mut deps);
    parse_dep_comment("---@dep   level  ", &mut deps);
    parse_dep_comment("---@dep two words", &mut deps);
    parse_dep_comment("-- just a comment", &mut deps);
    parse_dep_comment("---@dep level", &mut deps);
    parse_dep_comment("---@dep\u{3000}dex\t", &mut deps);
    assert_eq!(deps, vec!["attributes.str".to_string(), "level".to_string(), "dex".to_string()]);
}

#[test]
fn dependencies_from_tokens() {
    let tokens = vec![
        token(TokenKind::Identifier, "self"),
        token(TokenKind::Symbol, "."),
        token(TokenKind::Identifier, "a"),
        token(TokenKind::Symbol, "."),
        token(TokenKind::Identifier, "b"),
        token(TokenKind::Symbol, "+"),
        token(TokenKind::Identifier, "self"),
        token(TokenKind::Symbol, "."),
        token(TokenKind::Identifier, "c"),
        // The token that ends a path is not looked at again: this comment is passed over.
        token(TokenKind::Comment, "---@dep skipped"),
        token(TokenKind::Comment, "---@dep d"),
        token(TokenKind::Identifier, "self"),
        token(TokenKind::Symbol, "."),
        token(TokenKind::Identifier, "a"),
        token(TokenKind::Symbol, "."),
        token(TokenKind::Identifier, "b"),
    ];
    assert_eq!(dependencies_of_tokens(&tokens), vec!["a.b".to_string(), "c".to_string(), "d".to_string()]);
}

#[test]
fn lexer_reads_lua() {
    let source = LuaSource::new("a.lua".to_string(), "return self.x -- note".to_string());
    let tokens = source.tokenize_function(Some(1), Some(1)).unwrap();
    let kinds: Vec<TokenKind> = tokens.iter().map(|t| t.kind).collect();
    assert_eq!(
        kinds,
        vec![TokenKind::Keyword, TokenKind::Identifier, TokenKind::Symbol, TokenKind::Identifier, TokenKind::Comment]
    );
    let unfinished = LuaSource::new("b.lua".to_string(), "x = \"unfinished".to_string());
    assert!(unfinished.try_method_dependencies(Some(1), Some(1)).is_none());
}

#[test]
fn method_dependencies_of_source() {
    let text = "local t = {}\nfunction t.f(self)\n  ---@dep level\n  return self.str + self.dex\nend\nreturn t\n";
    let source = LuaSource::new("test.lua".to_string(), text.to_string());
    assert_eq!(source.path(), "test.lua");
    let deps = source.method_dependencies(Some(2), Some(5));
    assert_eq!(deps, vec!["level".to_string(), "str".to_string(), "dex".to_string()]);
    assert!(source.method_dependencies(None, Some(5)).is_empty());
    assert!(source.tokenize_function(Some(2), None).is_none());
    // Lines past the end are left out.
    assert_eq!(source.try_method_dependencies(Some(4), Some(40)), Some(vec!["str".to_string(), "dex".to_string()]));
    // Where lines start..end cannot be read or lexed, nothing is given.
    assert_eq!(source.try_method_dependencies(Some(5), Some(3)), None);
    assert_eq!(source.try_method_dependencies(Some(0), Some(3)), None);
    assert_eq!(source.try_method_dependencies(Some(50), Some(60)), None);
}

#[test]
fn iter_sorts_and_filters() {
    let entries = vec![
        (LuaTableIndex::String("b".to_string()), 'b'),
        (LuaTableIndex::Integer(20), 'y'),
        (LuaTableIndex::String("a".to_string()), 'a'),
        (LuaTableIndex::Integer(10), 'x'),
    ];
    let mut iter = LuaIter::new(entries);
    let keys: Vec<LuaTableIndex> = iter.entries_ref().iter().map(|(k, _)| k.clone()).collect();
    assert_eq!(
        keys,
        vec![
            LuaTableIndex::Integer(10),
            LuaTableIndex::Integer(20),
            LuaTableIndex::String("a".to_string()),
            LuaTableIndex::String("b".to_string()),
        ]
    );
    iter.normalize();
    let keys: Vec<LuaTableIndex> = iter.entries_ref().iter().map(|(k, _)| k.clone()).collect();
    assert_eq!(keys[0], LuaTableIndex::Integer(1));
    assert_eq!(keys[1], LuaTableIndex::Integer(2));
    iter.filter(&vec![false, true, true, false]);
    assert_eq!(
        iter.into_entries(),
        vec![(LuaTableIndex::Integer(1), 'y'), (LuaTableIndex::String("a".to_string()), 'a')]
    );
}

#[test]
fn source_meta_scopes() {
    let mut meta: LuaSourceMeta<i32> = LuaSourceMeta::new("main.lua".to_string());
    let previous = meta.enter("lib/a.lua".to_string());
    assert_eq!(previous, "main.lua");
    assert_eq!(meta.current_file(), "lib/a.lua");
    meta.remember_source("lib/a.lua".to_string(), 5);
    meta.leave(previous);
    assert_eq!(meta.current_file(), "main.lua");
    assert_eq!(meta.source_for("lib/a.lua"), Some(&5));
    assert_eq!(meta.source_for("lib/b.lua"), None);
    meta.remember_source("lib/a.lua".to_string(), 6);
    assert_eq!(meta.source_for("lib/a.lua"), Some(&6));
    meta.remember_deps("lib/a.lua".to_string(), vec![Identifier::new(1, "Object")]);
    assert_eq!(meta.deps_for("lib/a.lua").unwrap().len(), 1);
    assert!(meta.deps_for("main.lua").is_none());
}

#[test]
fn deps_run_rebases_foreign_items() {
    let run = LuaDepsRun(vec![Identifier::new(1, "Object"), Identifier::new(2, "Feature")]);
    let ids = run.into_identifiers(10, 11);
    assert_eq!(ids[0].rulebook(), Some(11));
    assert_eq!(ids[1].rulebook(), Some(11));
    let run = LuaDepsRun(vec![Identifier::new(1, "Object")]);
    let ids = run.into_identifiers(10, 10);
    assert_eq!(ids[0].rulebook(), None);
    assert!(LuaDepsRun::new().0.is_empty());
}
