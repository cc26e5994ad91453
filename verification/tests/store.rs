use app_util::config::{Config, Node};
use app_util::db::{DbContext, LoadError, SqlDef, SqlType};

fn table(entries: Vec<(&str, Node)>) -> Node {
    Node::Table(entries.into_iter().map(|(k, v)| (k.to_string(), v)).collect())
}

fn text(s: &str) -> Node {
    Node::Text(s.to_string())
}

fn sqls() -> Config {
    Config::TOML(table(vec![
        ("fullsync_device", table(vec![("type", text("query_list")), ("sql", text("SELECT {{b}} FROM d WHERE x={{a}}"))])),
        ("plain", table(vec![("sql", text("SELECT 1"))])),
    ]))
}

fn wrap(s: &str) -> String {
    format!("5{}5", s)
}

#[test]
fn store_holds_one_definition_per_key() {
    let ctx = DbContext::load(&sqls()).ok().unwrap();
    let d = ctx.find("fullsync_device").unwrap();
    assert_eq!(d.name, "fullsync_device");
    assert_eq!(d.typ, SqlType::QueryList);
    assert_eq!(d.sql, "SELECT {{b}} FROM d WHERE x={{a}}");
    let p = ctx.find("plain").unwrap();
    assert_eq!(p.name, "plain");
    assert_eq!(p.typ, SqlType::QueryList);
    assert_eq!(p.sql, "SELECT 1");
}

#[test]
fn new_agrees_with_load() {
    let ctx = DbContext::new(&sqls());
    assert_eq!(ctx.find("plain").unwrap().sql, "SELECT 1");
    assert!(ctx.find("other").is_none());
}

#[test]
fn unknown_template_name() {
    let ctx = DbContext::load(&sqls()).ok().unwrap();
    assert!(ctx.find("nope").is_none());
    assert!(ctx.find("").is_none());
    assert!(ctx.find("Plain").is_none());
    assert!(ctx.find("plain ").is_none());
}

#[test]
fn sql_renders_by_each_kind_of_binding() {
    let ctx = DbContext::load(&sqls()).ok().unwrap();
    assert_eq!(ctx.sql("fullsync_device", wrap), "SELECT 5b5 FROM d WHERE x=5a5");
    assert_eq!(ctx.sql("fullsync_device", vec!["3", "4"]), "SELECT 3 FROM d WHERE x=4");
    assert_eq!(ctx.sql("fullsync_device", vec![("b", "6"), ("a", "5")]), "SELECT 6 FROM d WHERE x=5");
    assert_eq!(ctx.sql("plain", Vec::<&str>::new()), "SELECT 1");
}

#[test]
fn query_and_exec_run_nothing() {
    let ctx = DbContext::load(&sqls()).ok().unwrap();
    ctx.query("plain", vec!["1"]);
    ctx.exec("plain", wrap);
    assert_eq!(ctx.find("plain").unwrap().sql, "SELECT 1");
}

#[test]
fn missing_sql_field() {
    let doc = Config::JSON(table(vec![("a", table(vec![("sql", text("x"))])), ("b", table(vec![("type", text("query_list"))]))]));
    assert_eq!(DbContext::load(&doc).err(), Some(LoadError::MissingSql));
    let entry = Config::JSON(table(vec![("type", text("query_list"))]));
    assert_eq!(SqlDef::load("b", &entry).err(), Some(LoadError::MissingSql));
    let empty = Config::JSON(table(vec![("sql", text(""))]));
    assert_eq!(SqlDef::load("b", &empty).err(), Some(LoadError::MissingSql));
    let scalar = Config::JSON(table(vec![("a", text("SELECT 1"))]));
    assert_eq!(DbContext::load(&scalar).err(), Some(LoadError::MissingSql));
}

#[test]
fn unsupported_type() {
    let entry = Config::TOML(table(vec![("type", text("exec_list")), ("sql", text("x"))]));
    assert_eq!(SqlDef::load("a", &entry).err(), Some(LoadError::UnsupportedType));
    assert_eq!(SqlType::parse("exec_list"), None);
    assert_eq!(SqlType::parse(""), None);
    assert_eq!(SqlType::parse("QUERY_LIST"), None);
    assert_eq!(SqlType::parse("query_list"), Some(SqlType::QueryList));
    assert_eq!(SqlType::new("query_list"), SqlType::QueryList);
}

#[test]
fn missing_sql_comes_before_unsupported_type() {
    let entry = Config::TOML(table(vec![("type", text("other"))]));
    assert_eq!(SqlDef::load("a", &entry).err(), Some(LoadError::MissingSql));
}

#[test]
fn key_that_leads_nowhere_as_a_path() {
    let doc = Config::JSON(table(vec![("a.b", table(vec![("sql", text("x"))]))]));
    assert_eq!(DbContext::load(&doc).err(), Some(LoadError::NoEntry));
    let empty_key = Config::JSON(table(vec![("", table(vec![("sql", text("x"))]))]));
    assert_eq!(DbContext::load(&empty_key).err(), Some(LoadError::NoEntry));
}

#[test]
fn first_faulty_key_is_reported() {
    let doc = Config::JSON(table(vec![
        ("ok", table(vec![("sql", text("x"))])),
        ("bad_type", table(vec![("type", text("nope")), ("sql", text("x"))])),
        ("no_sql", table(vec![])),
    ]));
    assert_eq!(DbContext::load(&doc).err(), Some(LoadError::UnsupportedType));
}

#[test]
fn the_load_failures_are_distinct() {
    assert_ne!(LoadError::MissingSql, LoadError::UnsupportedType);
    assert_ne!(LoadError::MissingSql, LoadError::NoEntry);
    assert_ne!(LoadError::NoEntry, LoadError::UnsupportedType);
}

#[test]
fn default_type_is_query_list() {
    let entry = Config::JSON(table(vec![("sql", text("SELECT {{a}}"))]));
    let d = SqlDef::new("q", &entry);
    assert_eq!(d.typ, SqlType::QueryList);
    assert_eq!(d.name, "q");
    assert_eq!(d.sql, "SELECT {{a}}");
    let empty_type = Config::JSON(table(vec![("type", text("")), ("sql", text("x"))]));
    assert_eq!(SqlDef::load("q", &empty_type).ok().unwrap().typ, SqlType::QueryList);
}

#[test]
fn body_may_be_any_scalar_with_text() {
    let entry = Config::JSON(table(vec![("sql", Node::Integer(12))]));
    assert_eq!(SqlDef::load("q", &entry).ok().unwrap().sql, "12");
}

#[test]
fn document_that_is_no_mapping_defines_nothing() {
    let ctx = DbContext::load(&Config::JSON(Node::Null)).ok().unwrap();
    assert!(ctx.find("a").is_none());
}

#[test]
fn repeated_key_defines_one_template() {
    let doc = Config::JSON(table(vec![
        ("a", table(vec![("sql", text("first"))])),
        ("a", table(vec![("sql", text("second"))])),
    ]));
    let ctx = DbContext::load(&doc).ok().unwrap();
    assert_eq!(ctx.find("a").unwrap().sql, "first");
}
