use pebble::db::{
    bind_text, create_table_statement, delete_statement, drop_table_statement, find_by_id_statement,
    insert_statement, select_all_statement, update_statement,
};
use pebble::{Database, Model, Number, Object, Param, PlanError, QueryBuilder, Schema, Statement, Untyped};

struct Item;

impl Model for Item {
    fn table_name() -> &'static str {
        "items"
    }

    fn fields() -> &'static [&'static str] {
        &["sku", "name", "cost"]
    }

    fn primary_key() -> &'static str {
        "sku"
    }
}

struct Plain;

impl Model for Plain {
    fn table_name() -> &'static str {
        "plain"
    }

    fn fields() -> &'static [&'static str] {
        &["id"]
    }
}

fn items() -> Schema {
    Schema::new("items", &["sku", "name", "cost"], "sku")
}

fn text(s: &str) -> Untyped {
    Untyped::String(s.to_string())
}

fn whole(i: i64) -> Untyped {
    Untyped::Number(Number::from_i64(i))
}

fn record(entries: Vec<(&str, Untyped)>) -> Untyped {
    let mut o = Object::new();
    for (k, v) in entries {
        o.insert(k.to_string(), v);
    }
    Untyped::Object(o)
}

fn texts(values: &[&str]) -> Vec<Param> {
    values.iter().map(|v| Param::Text(v.to_string())).collect()
}

fn statement(sql: &str, params: Vec<Param>) -> Statement {
    Statement { sql: sql.to_string(), params }
}

#[test]
fn schema_of_a_model() {
    let schema = Schema::of::<Item>();
    assert_eq!(schema, items());
    assert_eq!(schema.table_name, "items");
    assert_eq!(schema.fields, vec!["sku", "name", "cost"]);
    assert_eq!(schema.primary_key, "sku");
    assert_eq!(Schema::of::<Plain>().primary_key, "id");
}

#[test]
fn schema_validity() {
    assert!(items().is_valid());
    assert!(Schema::new("t", &["id"], "id").is_valid());
    assert!(!Schema::new("t", &[], "id").is_valid());
    assert!(!Schema::new("t", &["a", "b"], "id").is_valid());
    assert!(!Schema::new("t", &["id", "a", "id"], "id").is_valid());
    assert!(!Schema::new("t", &["id", "a", "b", "a"], "id").is_valid());
}

#[test]
fn create_table_text() {
    assert_eq!(
        create_table_statement(&items()),
        statement("CREATE TABLE IF NOT EXISTS items (sku INTEGER PRIMARY KEY, name TEXT, cost TEXT)", vec![])
    );
    assert_eq!(
        Database::new().create_table::<Plain>(),
        statement("CREATE TABLE IF NOT EXISTS plain (id INTEGER PRIMARY KEY)", vec![])
    );
    assert_eq!(
        create_table_statement(&Schema::new("t", &[], "id")),
        statement("CREATE TABLE IF NOT EXISTS t ()", vec![])
    );
    assert_eq!(
        create_table_statement(&Schema::new("t", &["a", "b"], "id")),
        statement("CREATE TABLE IF NOT EXISTS t (a TEXT, b TEXT)", vec![])
    );
}

#[test]
fn drop_table_text() {
    assert_eq!(drop_table_statement(&items()), statement("DROP TABLE IF EXISTS items", vec![]));
    assert_eq!(Database::new().drop_table::<Item>(), statement("DROP TABLE IF EXISTS items", vec![]));
}

#[test]
fn select_all_text() {
    assert_eq!(select_all_statement(&items()), statement("SELECT sku, name, cost FROM items", vec![]));
    assert_eq!(Database::new().select_all::<Plain>(), statement("SELECT id FROM plain", vec![]));
}

#[test]
fn find_by_id_text() {
    assert_eq!(
        find_by_id_statement(&items(), 42),
        statement("SELECT sku, name, cost FROM items WHERE sku = ?", vec![Param::Integer(42)])
    );
    assert_eq!(
        Database::new().find_by_id::<Plain>(-1),
        statement("SELECT id FROM plain WHERE id = ?", vec![Param::Integer(-1)])
    );
}

#[test]
fn delete_text() {
    assert_eq!(
        delete_statement(&items(), 7),
        statement("DELETE FROM items WHERE sku = ?", vec![Param::Integer(7)])
    );
    assert_eq!(
        Database::new().delete::<Item>(i64::MIN),
        statement("DELETE FROM items WHERE sku = ?", vec![Param::Integer(i64::MIN)])
    );
}

#[test]
fn insert_text_and_values() {
    let r = record(vec![("name", text("Boots")), ("cost", whole(500)), ("sku", whole(3)), ("extra", whole(1))]);
    assert_eq!(
        insert_statement(&items(), &r).unwrap(),
        statement("INSERT INTO items (sku, name, cost) VALUES (?, ?, ?)", texts(&["3", "Boots", "500"]))
    );
    assert_eq!(
        Database::new().insert::<Item>(&r).unwrap(),
        statement("INSERT INTO items (sku, name, cost) VALUES (?, ?, ?)", texts(&["3", "Boots", "500"]))
    );
}

#[test]
fn insert_binds_every_kind_of_value() {
    let schema = Schema::new("t", &["a", "b", "c", "d", "e", "f", "g"], "a");
    let mut inner = Object::new();
    inner.insert("z".to_string(), whole(1));
    inner.insert("a".to_string(), Untyped::Array(vec![]));
    let r = record(vec![
        ("a", whole(-3)),
        ("b", text("x'; DROP TABLE t; --")),
        ("c", Untyped::Bool(true)),
        ("d", Untyped::Bool(false)),
        ("e", Untyped::Null),
        ("f", Untyped::Array(vec![whole(1), text("two"), Untyped::Number(Number::Float("2.5".to_string()))])),
        ("g", Untyped::Object(inner)),
    ]);
    let st = insert_statement(&schema, &r).unwrap();
    assert_eq!(st.sql, "INSERT INTO t (a, b, c, d, e, f, g) VALUES (?, ?, ?, ?, ?, ?, ?)");
    assert_eq!(
        st.params,
        texts(&["-3", "x'; DROP TABLE t; --", "true", "false", "NULL", "[1,\"two\",2.5]", "{\"a\":[],\"z\":1}"])
    );
}

#[test]
fn insert_of_no_columns() {
    let st = insert_statement(&Schema::new("t", &[], "id"), &record(vec![])).unwrap();
    assert_eq!(st, statement("INSERT INTO t () VALUES ()", vec![]));
}

#[test]
fn insert_rejects() {
    assert!(matches!(insert_statement(&items(), &Untyped::Null), Err(PlanError::InvalidQuery)));
    assert!(matches!(insert_statement(&items(), &text("{}")), Err(PlanError::InvalidQuery)));
    assert!(matches!(insert_statement(&items(), &Untyped::Array(vec![])), Err(PlanError::InvalidQuery)));
    let lacking = record(vec![("sku", whole(1)), ("name", text("n"))]);
    assert!(matches!(insert_statement(&items(), &lacking), Err(PlanError::InvalidQuery)));
    assert!(matches!(Database::new().insert::<Item>(&lacking), Err(PlanError::InvalidQuery)));
}

#[test]
fn a_compound_value_that_cannot_be_written() {
    let broken = Untyped::Array(vec![Untyped::Number(Number::Float("not a number".to_string()))]);
    let r = record(vec![("sku", whole(1)), ("name", broken), ("cost", whole(1))]);
    assert!(matches!(insert_statement(&items(), &r), Err(PlanError::ToSqlConversionFailure(_))));
    let broken = Untyped::Array(vec![Untyped::Number(Number::Float("not a number".to_string()))]);
    let r = record(vec![("sku", whole(1)), ("name", broken), ("cost", whole(1))]);
    assert!(matches!(update_statement(&items(), &r), Err(PlanError::ToSqlConversionFailure(_))));
    let broken = Untyped::Array(vec![Untyped::Number(Number::Float("not a number".to_string()))]);
    let r = record(vec![("sku", whole(1)), ("name", broken)]);
    assert!(matches!(insert_statement(&items(), &r), Err(PlanError::ToSqlConversionFailure(_))));
}

#[test]
fn the_first_field_in_the_way_decides_the_error() {
    let broken = || Untyped::Array(vec![Untyped::Number(Number::Float("1e".to_string()))]);
    let r = record(vec![("name", broken()), ("cost", whole(1))]);
    assert!(matches!(insert_statement(&items(), &r), Err(PlanError::InvalidQuery)));
    let r = record(vec![("sku", broken()), ("cost", whole(1))]);
    assert!(matches!(insert_statement(&items(), &r), Err(PlanError::ToSqlConversionFailure(_))));
    let r = record(vec![("sku", whole(1)), ("name", broken())]);
    assert!(matches!(update_statement(&items(), &r), Err(PlanError::ToSqlConversionFailure(_))));
    let r = record(vec![("sku", whole(1)), ("cost", broken())]);
    assert!(matches!(update_statement(&items(), &r), Err(PlanError::InvalidQuery)));
    let r = record(vec![("name", broken()), ("cost", broken())]);
    assert!(matches!(update_statement(&items(), &r), Err(PlanError::InvalidQuery)));
}

#[test]
fn a_floating_number_is_written_where_its_text_is_a_number() {
    for good in ["1.5", "-0.25", "1e10", "2.5E-3", "0.0", "7"] {
        let v = Untyped::Array(vec![Untyped::Number(Number::Float(good.to_string()))]);
        assert!(bind_text(&v).is_ok(), "{}", good);
    }
    for bad in ["", "-", "1.", ".5", "1e", "abc", "1 ", "+1", "01", "NaN", "1e999"] {
        let v = Untyped::Array(vec![Untyped::Number(Number::Float(bad.to_string()))]);
        assert!(matches!(bind_text(&v), Err(PlanError::ToSqlConversionFailure(_))), "{}", bad);
        let mut o = Object::new();
        o.insert("deep".to_string(), Untyped::Array(vec![v]));
        assert!(bind_text(&Untyped::Object(o)).is_err(), "{}", bad);
        assert_eq!(bind_text(&Untyped::Number(Number::Float(bad.to_string()))).unwrap(), bad);
    }
}

#[test]
fn bound_texts() {
    assert_eq!(bind_text(&text("a b")).unwrap(), "a b");
    assert_eq!(bind_text(&text("")).unwrap(), "");
    assert_eq!(bind_text(&whole(12)).unwrap(), "12");
    assert_eq!(bind_text(&whole(-12)).unwrap(), "-12");
    assert_eq!(bind_text(&Untyped::Number(Number::PosInt(u64::MAX))).unwrap(), "18446744073709551615");
    assert_eq!(bind_text(&Untyped::Number(Number::Float("0.1".to_string()))).unwrap(), "0.1");
    assert_eq!(bind_text(&Untyped::Bool(true)).unwrap(), "true");
    assert_eq!(bind_text(&Untyped::Bool(false)).unwrap(), "false");
    assert_eq!(bind_text(&Untyped::Null).unwrap(), "NULL");
    assert_eq!(bind_text(&Untyped::Array(vec![])).unwrap(), "[]");
    assert_eq!(bind_text(&Untyped::Object(Object::new())).unwrap(), "{}");
    assert_eq!(
        bind_text(&Untyped::Array(vec![Untyped::Null, Untyped::Bool(true), text("a\nb")])).unwrap(),
        "[null,true,\"a\\nb\"]"
    );
}

#[test]
fn compound_text_is_what_serde_json_writes() {
    let mut map = serde_json::Map::new();
    map.insert("b".to_string(), serde_json::Value::from(1u64));
    map.insert("a".to_string(), serde_json::Value::from(vec![serde_json::Value::from(-2i64)]));
    let expected = serde_json::to_string(&serde_json::Value::Object(map)).unwrap();
    let mut o = Object::new();
    o.insert("b".to_string(), whole(1));
    o.insert("a".to_string(), Untyped::Array(vec![whole(-2)]));
    assert_eq!(bind_text(&Untyped::Object(o)).unwrap(), expected);
    assert_eq!(expected, "{\"a\":[-2],\"b\":1}");
}

#[test]
fn update_text_and_values() {
    let r = record(vec![("sku", whole(3)), ("name", text("Boots")), ("cost", whole(450))]);
    assert_eq!(
        update_statement(&items(), &r).unwrap(),
        statement("UPDATE items SET name = ?, cost = ? WHERE sku = ?", texts(&["Boots", "450", "3"]))
    );
    assert_eq!(
        Database::new().update::<Item>(&r).unwrap(),
        statement("UPDATE items SET name = ?, cost = ? WHERE sku = ?", texts(&["Boots", "450", "3"]))
    );
    let keyed_by_text = record(vec![("sku", text("k-1")), ("name", Untyped::Null), ("cost", Untyped::Bool(false))]);
    assert_eq!(
        update_statement(&items(), &keyed_by_text).unwrap(),
        statement("UPDATE items SET name = ?, cost = ? WHERE sku = ?", texts(&["NULL", "false", "k-1"]))
    );
}

#[test]
fn update_with_the_key_in_the_middle() {
    let schema = Schema::new("t", &["a", "id", "b"], "id");
    let r = record(vec![("id", whole(9)), ("a", text("x")), ("b", text("y"))]);
    assert_eq!(
        update_statement(&schema, &r).unwrap(),
        statement("UPDATE t SET a = ?, b = ? WHERE id = ?", texts(&["x", "y", "9"]))
    );
    let only_key = Schema::new("t", &["id"], "id");
    assert_eq!(
        update_statement(&only_key, &record(vec![("id", whole(9))])).unwrap(),
        statement("UPDATE t SET  WHERE id = ?", texts(&["9"]))
    );
}

#[test]
fn update_rejects() {
    assert!(matches!(update_statement(&items(), &Untyped::Null), Err(PlanError::InvalidQuery)));
    let no_key = record(vec![("name", text("n")), ("cost", whole(1))]);
    assert!(matches!(update_statement(&items(), &no_key), Err(PlanError::InvalidQuery)));
    for bad in [Untyped::Null, Untyped::Bool(true), Untyped::Array(vec![]), Untyped::Object(Object::new())] {
        let r = record(vec![("sku", bad), ("name", text("n")), ("cost", whole(1))]);
        assert!(matches!(update_statement(&items(), &r), Err(PlanError::InvalidQuery)));
    }
    let lacking = record(vec![("sku", whole(1)), ("cost", whole(1))]);
    assert!(matches!(update_statement(&items(), &lacking), Err(PlanError::InvalidQuery)));
    assert!(matches!(Database::new().update::<Item>(&lacking), Err(PlanError::InvalidQuery)));
}

#[test]
fn query_texts() {
    assert_eq!(QueryBuilder::new::<Item>().fetch(), statement("SELECT sku, name, cost FROM items", vec![]));
    assert_eq!(Database::new().query::<Item>().fetch(), statement("SELECT sku, name, cost FROM items", vec![]));
    assert_eq!(
        QueryBuilder::for_schema(&items()).where_eq("name", "Axe").fetch(),
        statement("SELECT sku, name, cost FROM items WHERE name = ?", texts(&["Axe"]))
    );
    assert_eq!(
        QueryBuilder::new::<Item>()
            .where_gt("cost", "100")
            .where_lt("cost", "900")
            .where_like("name", "B%")
            .where_eq("sku", "1")
            .fetch(),
        statement(
            "SELECT sku, name, cost FROM items WHERE cost > ? AND cost < ? AND name LIKE ? AND sku = ?",
            texts(&["100", "900", "B%", "1"])
        )
    );
}

#[test]
fn query_order_and_limit() {
    assert_eq!(
        QueryBuilder::new::<Item>().order_by("cost", true).fetch().sql,
        "SELECT sku, name, cost FROM items ORDER BY cost ASC"
    );
    assert_eq!(
        QueryBuilder::new::<Item>().order_by("cost", true).order_by("name", false).fetch().sql,
        "SELECT sku, name, cost FROM items ORDER BY name DESC"
    );
    assert_eq!(
        QueryBuilder::new::<Item>().limit(10).limit(0).fetch().sql,
        "SELECT sku, name, cost FROM items LIMIT 0"
    );
    assert_eq!(
        QueryBuilder::new::<Item>().limit(5).where_eq("name", "?").order_by("cost", false).fetch(),
        statement(
            "SELECT sku, name, cost FROM items WHERE name = ? ORDER BY cost DESC LIMIT 5",
            texts(&["?"])
        )
    );
    assert_eq!(
        QueryBuilder::new::<Item>().limit(usize::MAX).fetch().sql,
        format!("SELECT sku, name, cost FROM items LIMIT {}", usize::MAX)
    );
}

#[test]
fn fetch_one_sets_the_limit_to_one() {
    assert_eq!(QueryBuilder::new::<Item>().fetch_one().sql, "SELECT sku, name, cost FROM items LIMIT 1");
    assert_eq!(
        QueryBuilder::new::<Item>().limit(50).where_eq("sku", "2").fetch_one(),
        statement("SELECT sku, name, cost FROM items WHERE sku = ? LIMIT 1", texts(&["2"]))
    );
}

#[test]
fn the_text_of_a_query_does_not_depend_on_its_values() {
    let a = QueryBuilder::new::<Item>().where_eq("name", "Alice").fetch();
    let b = QueryBuilder::new::<Item>().where_eq("name", "Alice'; DROP TABLE users; --").fetch();
    assert_eq!(a.sql, b.sql);
    assert_eq!(b.params, texts(&["Alice'; DROP TABLE users; --"]));
    assert_eq!(a.sql.matches('?').count(), a.params.len());
}

#[test]
fn placeholders_match_bound_values() {
    let r = record(vec![("sku", whole(3)), ("name", text("a?b")), ("cost", whole(450))]);
    for st in [
        create_table_statement(&items()),
        drop_table_statement(&items()),
        select_all_statement(&items()),
        find_by_id_statement(&items(), 1),
        delete_statement(&items(), 1),
        insert_statement(&items(), &r).unwrap(),
        update_statement(&items(), &r).unwrap(),
        QueryBuilder::new::<Item>().where_eq("a", "?").where_like("b", "??").limit(3).fetch(),
    ] {
        assert_eq!(st.sql.matches('?').count(), st.params.len(), "{}", st.sql);
    }
}

#[test]
fn the_fields_of_a_query() {
    let q = QueryBuilder::new::<Item>().where_eq("name", "x");
    assert_eq!(q.fields(), &vec!["sku".to_string(), "name".to_string(), "cost".to_string()]);
}
