//! The record store: the statements that create a table, write a record and
//! read records back.
//!
//! Table and field names come from the schema only. What a record holds is
//! never written into SQL text: it is bound to a placeholder.

use crate::json::{encodable, encode_json, json_text};
use crate::model::{declared_with, Model, Schema, SchemaView};
use crate::query::{QueryBuilder, QueryView};
use crate::statement::{bind_all, text_params, Param, ParamView, PlanError, Statement, StatementView};
use crate::text::{
    all_plain, count, join, join_strings, lemma_count_absent, lemma_count_concat,
    lemma_count_join_uniform, plain, texts,
};
use crate::value::{Object, Untyped};
use vstd::prelude::*;
use vstd::string::*;

verus! {

/// The text that is bound for a value: a string as it is, a number in its
/// textual form, a boolean as `true` or `false`, null as `NULL`, and a
/// sequence or a mapping in its JSON encoding.
pub open spec fn bound_text(v: Untyped) -> Seq<char> {
    match v {
        Untyped::String(s) => s@,
        Untyped::Number(n) => n.text(),
        Untyped::Bool(b) => if b {
            "true"@
        } else {
            "false"@
        },
        Untyped::Null => "NULL"@,
        _ => json_text(v),
    }
}

/// Whether a text can be bound for the value: always for a scalar, and for a
/// sequence or a mapping where it can be written as JSON text.
pub open spec fn bindable(v: Untyped) -> bool {
    v.is_compound() ==> encodable(v)
}

/// Renders a value as the text that is bound for it.
///
/// Succeeds exactly on a value that can be bound; the error is that of the
/// encoding of a sequence or a mapping.
pub fn bind_text(value: &Untyped) -> (r: Result<String, PlanError>)
    ensures
        match r {
            Ok(s) => bindable(*value) && s@ == bound_text(*value),
            Err(e) => !bindable(*value) && e is ToSqlConversionFailure,
        },
{
    match value {
        Untyped::String(s) => Ok(s.clone()),
        Untyped::Number(n) => Ok(n.to_string()),
        Untyped::Bool(b) => Ok(
            if *b {
                String::from_str("true")
            } else {
                String::from_str("false")
            },
        ),
        Untyped::Null => Ok(String::from_str("NULL")),
        _ => match encode_json(value) {
            Ok(s) => Ok(s),
            Err(e) => Err(PlanError::ToSqlConversionFailure(e)),
        },
    }
}

/// Whether the record holds, for each of `names`, a value that can be bound.
pub open spec fn all_bindable(names: Seq<Seq<char>>, record: Object) -> bool {
    forall|j: int|
        0 <= j < names.len() ==> record.value_of(#[trigger] names[j]) is Some && bindable(
            record.value_of(names[j])->0,
        )
}

/// Whether rendering the record stops at the name of index `i`: the record
/// holds no value for it or one that cannot be bound, and holds a value that
/// can be bound for every name before it.
pub open spec fn stops_at(names: Seq<Seq<char>>, record: Object, i: int) -> bool {
    &&& 0 <= i < names.len()
    &&& record.value_of(names[i]) is None || !bindable(record.value_of(names[i])->0)
    &&& all_bindable(names.take(i), record)
}

/// Whether rendering the record stops at a name, for want of a value where
/// `missing` holds, at a value that cannot be bound where it does not.
pub open spec fn stopped(names: Seq<Seq<char>>, record: Object, missing: bool) -> bool {
    exists|i: int| #[trigger]
        stops_at(names, record, i) && (record.value_of(names[i]) is None) == missing
}

/// The texts bound for the values that the record holds for `names`, in the
/// order of `names`.
pub open spec fn record_texts(names: Seq<Seq<char>>, record: Object) -> Seq<Seq<char>> {
    Seq::new(names.len(), |i: int| bound_text(record.value_of(names[i])->0))
}

/// The outcome owed for rendering the values that `record` holds for
/// `names`: the texts, where every name has a value that can be bound; or
/// else the error of the first name that has none: `InvalidQuery` for want of
/// a value, `ToSqlConversionFailure` for a value that cannot be bound.
pub open spec fn render_outcome(
    names: Seq<Seq<char>>,
    record: Object,
    r: Result<Vec<String>, PlanError>,
) -> bool {
    match r {
        Ok(values) => all_bindable(names, record) && texts(values@) == record_texts(names, record),
        Err(PlanError::InvalidQuery) => stopped(names, record, true),
        Err(PlanError::ToSqlConversionFailure(_)) => stopped(names, record, false),
    }
}

/// Renders, in the order of `names`, the value that the record holds for each
/// name. Stops at the first name without a value, and at the first value
/// that cannot be bound.
pub fn render_fields(record: &Object, names: &Vec<String>) -> (r: Result<Vec<String>, PlanError>)
    ensures
        render_outcome(texts(names@), *record, r),
{
    let ghost wanted = texts(names@);
    let mut values: Vec<String> = Vec::new();
    let mut i: usize = 0;
    while i < names.len()
        invariant
            i <= names.len(),
            wanted == texts(names@),
            values@.len() == i,
            all_bindable(wanted.take(i as int), *record),
            forall|j: int|
                0 <= j < i ==> (#[trigger] values@[j])@ == bound_text(record.value_of(wanted[j])->0),
        decreases names.len() - i,
    {
        assert(wanted[i as int] == names@[i as int]@);
        match record.get(names[i].as_str()) {
            None => {
                assert(stops_at(wanted, *record, i as int));
                return Err(PlanError::InvalidQuery);
            },
            Some(value) => match bind_text(value) {
                Ok(s) => {
                    values.push(s);
                },
                Err(e) => {
                    assert(stops_at(wanted, *record, i as int));
                    return Err(e);
                },
            },
        }
        proof {
            let next = wanted.take(i + 1);
            let seen = wanted.take(i as int);
            assert forall|j: int| 0 <= j < next.len() implies record.value_of(
                #[trigger] next[j],
            ) is Some && bindable(record.value_of(next[j])->0) by {
                if j < i {
                    assert(seen[j] == next[j]);
                }
            }
        }
        i += 1;
    }
    assert(wanted.take(names.len() as int) == wanted);
    assert(texts(values@) =~= record_texts(wanted, *record));
    Ok(values)
}

/// A record stops at one name at most, so the outcome of rendering it is one
/// only: the texts, or the one error of the first name that has no value
/// that can be bound.
pub proof fn lemma_render_outcome_is_one(names: Seq<Seq<char>>, record: Object)
    ensures
        all_bindable(names, record) ==> !stopped(names, record, true) && !stopped(
            names,
            record,
            false,
        ),
        !(stopped(names, record, true) && stopped(names, record, false)),
        !all_bindable(names, record) ==> stopped(names, record, true) || stopped(
            names,
            record,
            false,
        ),
{
    if stopped(names, record, true) && stopped(names, record, false) {
        let a = choose|i: int| #[trigger]
            stops_at(names, record, i) && (record.value_of(names[i]) is None) == true;
        let b = choose|i: int| #[trigger]
            stops_at(names, record, i) && (record.value_of(names[i]) is None) == false;
        if a < b {
            assert(names.take(b)[a] == names[a]);
        } else if b < a {
            assert(names.take(a)[b] == names[b]);
        }
    }
    if all_bindable(names, record) {
        assert forall|i: int| !stops_at(names, record, i) by {
            if 0 <= i < names.len() {
                assert(record.value_of(names[i]) is Some);
            }
        }
    } else {
        lemma_first_stop(names, record, names.len() as int);
        assert(names.take(names.len() as int) == names);
        let i = choose|i: int| 0 <= i < names.len() && #[trigger] stops_at(names, record, i);
        if record.value_of(names[i]) is None {
            assert(stopped(names, record, true));
        } else {
            assert(stopped(names, record, false));
        }
    }
}

/// Among the first `n` names, either each has a value that can be bound or
/// rendering stops at one of them.
proof fn lemma_first_stop(names: Seq<Seq<char>>, record: Object, n: int)
    requires
        0 <= n <= names.len(),
    ensures
        all_bindable(names.take(n), record) || exists|i: int|
            0 <= i < n && #[trigger] stops_at(names, record, i),
    decreases n,
{
    if n > 0 {
        lemma_first_stop(names, record, n - 1);
        if all_bindable(names.take(n - 1), record) {
            let last = names[n - 1];
            if record.value_of(last) is Some && bindable(record.value_of(last)->0) {
                assert forall|j: int| 0 <= j < n implies record.value_of(
                    #[trigger] names.take(n)[j],
                ) is Some && bindable(record.value_of(names.take(n)[j])->0) by {
                    if j < n - 1 {
                        assert(names.take(n - 1)[j] == names.take(n)[j]);
                    }
                }
            } else {
                assert(stops_at(names, record, n - 1));
            }
        }
    }
    if n == names.len() {
        assert(names.take(n) == names);
    }
}

/// The column definition of a field: the primary key is an integer primary
/// key, every other field is text.
pub open spec fn column_definition(field: Seq<char>, key: Seq<char>) -> Seq<char> {
    if field == key {
        field + " INTEGER PRIMARY KEY"@
    } else {
        field + " TEXT"@
    }
}

/// The column definitions of `columns`, in order.
pub open spec fn column_definitions(columns: Seq<Seq<char>>, key: Seq<char>) -> Seq<Seq<char>> {
    Seq::new(columns.len(), |i: int| column_definition(columns[i], key))
}

/// The text of the statement that creates the table unless it exists.
pub open spec fn create_table_sql(table: Seq<char>, columns: Seq<Seq<char>>, key: Seq<char>) -> Seq<
    char,
> {
    "CREATE TABLE IF NOT EXISTS "@ + table + " ("@ + join(
        column_definitions(columns, key),
        ", "@,
    ) + ")"@
}

/// The text of the statement that drops the table if it exists.
pub open spec fn drop_table_sql(table: Seq<char>) -> Seq<char> {
    "DROP TABLE IF EXISTS "@ + table
}

/// `n` placeholders.
pub open spec fn placeholders(n: nat) -> Seq<Seq<char>> {
    Seq::new(n, |i: int| "?"@)
}

/// The text of the statement that inserts one row, with a placeholder for
/// each column.
pub open spec fn insert_sql(table: Seq<char>, columns: Seq<Seq<char>>) -> Seq<char> {
    "INSERT INTO "@ + table + " ("@ + join(columns, ", "@) + ") VALUES ("@ + join(
        placeholders(columns.len()),
        ", "@,
    ) + ")"@
}

/// The text of the statement that reads every row.
pub open spec fn select_sql(table: Seq<char>, columns: Seq<Seq<char>>) -> Seq<char> {
    "SELECT "@ + join(columns, ", "@) + " FROM "@ + table
}

/// The text of the statement that reads the rows with a given primary key.
pub open spec fn find_sql(table: Seq<char>, columns: Seq<Seq<char>>, key: Seq<char>) -> Seq<char> {
    select_sql(table, columns) + " WHERE "@ + key + " = ?"@
}

/// The text of the statement that deletes the rows with a given primary key.
pub open spec fn delete_sql(table: Seq<char>, key: Seq<char>) -> Seq<char> {
    "DELETE FROM "@ + table + " WHERE "@ + key + " = ?"@
}

/// The columns other than the primary key, in order.
pub open spec fn non_key(columns: Seq<Seq<char>>, key: Seq<char>) -> Seq<Seq<char>>
    decreases columns.len(),
{
    if columns.len() == 0 {
        Seq::empty()
    } else if columns.last() == key {
        non_key(columns.drop_last(), key)
    } else {
        non_key(columns.drop_last(), key).push(columns.last())
    }
}

/// One assignment with a placeholder for each of `columns`.
pub open spec fn assignments(columns: Seq<Seq<char>>) -> Seq<Seq<char>> {
    Seq::new(columns.len(), |i: int| columns[i] + " = ?"@)
}

/// The text of the statement that updates the rows with a given primary key:
/// every column but the key is assigned.
pub open spec fn update_sql(table: Seq<char>, columns: Seq<Seq<char>>, key: Seq<char>) -> Seq<char> {
    "UPDATE "@ + table + " SET "@ + join(assignments(non_key(columns, key)), ", "@) + " WHERE "@
        + key + " = ?"@
}

/// The outcome owed for planning the insertion of `record` into `table`
/// with the columns `columns`: the statement, where the record is a mapping
/// that holds for every column a value that can be bound; `InvalidQuery`,
/// where it is no mapping or the first column in its way has no value;
/// `ToSqlConversionFailure`, where the first column in its way has a value
/// that cannot be bound.
pub open spec fn insert_outcome(
    table: Seq<char>,
    columns: Seq<Seq<char>>,
    record: Untyped,
    r: Result<Statement, PlanError>,
) -> bool {
    match r {
        Ok(st) => {
            &&& record is Object
            &&& all_bindable(columns, record->Object_0)
            &&& st@ == (StatementView {
                sql: insert_sql(table, columns),
                params: text_params(record_texts(columns, record->Object_0)),
            })
        },
        Err(PlanError::InvalidQuery) => !(record is Object) || stopped(
            columns,
            record->Object_0,
            true,
        ),
        Err(PlanError::ToSqlConversionFailure(_)) => record is Object && stopped(
            columns,
            record->Object_0,
            false,
        ),
    }
}

/// Whether a value can stand as a primary key in an update: a number or a
/// string.
pub open spec fn is_key_value(v: Untyped) -> bool {
    v is Number || v is String
}

/// Whether the record is turned down before any value is rendered: it is no
/// mapping, or its key is missing or is neither a number nor a string.
pub open spec fn key_rejected(schema: SchemaView, record: Untyped) -> bool {
    ||| !(record is Object)
    ||| record->Object_0.value_of(schema.key) is None
    ||| !is_key_value(record->Object_0.value_of(schema.key)->0)
}

/// The texts bound by an update: those of the columns other than the key, in
/// order, then that of the key.
pub open spec fn update_texts(schema: SchemaView, record: Object) -> Seq<Seq<char>> {
    record_texts(non_key(schema.columns, schema.key), record).push(
        bound_text(record.value_of(schema.key)->0),
    )
}

/// The outcome owed for planning the update of `record`: the statement,
/// where the record is a mapping with a number or a string for its key and a
/// value that can be bound for every other column; `InvalidQuery`, where the
/// record is turned down for its key or the first column in its way has no
/// value; `ToSqlConversionFailure`, where the first column in its way has a
/// value that cannot be bound.
pub open spec fn update_outcome(schema: SchemaView, record: Untyped, r: Result<Statement, PlanError>) -> bool {
    match r {
        Ok(st) => {
            &&& !key_rejected(schema, record)
            &&& all_bindable(non_key(schema.columns, schema.key), record->Object_0)
            &&& st@ == (StatementView {
                sql: update_sql(schema.table, schema.columns, schema.key),
                params: text_params(update_texts(schema, record->Object_0)),
            })
        },
        Err(PlanError::InvalidQuery) => key_rejected(schema, record) || stopped(
            non_key(schema.columns, schema.key),
            record->Object_0,
            true,
        ),
        Err(PlanError::ToSqlConversionFailure(_)) => !key_rejected(schema, record) && stopped(
            non_key(schema.columns, schema.key),
            record->Object_0,
            false,
        ),
    }
}

/// Plans the update of the row whose primary key is that of `record`.
///
/// Every column but the key is assigned the text bound for the record's
/// value, in column order; the key's text is bound last, for the `WHERE`
/// clause.
pub fn update_statement(schema: &Schema, record: &Untyped) -> (r: Result<Statement, PlanError>)
    ensures
        update_outcome(schema@, *record, r),
{
    let object = match record.as_object() {
        Some(o) => o,
        None => {
            return Err(PlanError::InvalidQuery);
        },
    };
    let key_text = match object.get(schema.primary_key.as_str()) {
        Some(Untyped::Number(n)) => n.to_string(),
        Some(Untyped::String(s)) => s.clone(),
        _ => {
            return Err(PlanError::InvalidQuery);
        },
    };
    let ghost columns = schema.columns();
    let ghost key = schema.key();
    let mut names: Vec<String> = Vec::new();
    let mut clauses: Vec<String> = Vec::new();
    let mut i: usize = 0;
    while i < schema.fields.len()
        invariant
            i <= schema.fields.len(),
            columns == schema.columns(),
            key == schema.key(),
            texts(names@) == non_key(columns.take(i as int), key),
            texts(clauses@) == assignments(texts(names@)),
        decreases schema.fields.len() - i,
    {
        let ghost before = texts(names@);
        let ghost before_clauses = texts(clauses@);
        let ghost next = columns.take(i + 1);
        assert(next.drop_last() == columns.take(i as int));
        assert(next.last() == schema.fields@[i as int]@);
        if !schema.fields[i].eq(&schema.primary_key) {
            let mut clause = schema.fields[i].clone();
            clause.append(" = ?");
            names.push(schema.fields[i].clone());
            clauses.push(clause);
            assert(texts(names@) =~= before.push(next.last()));
            assert(texts(clauses@) =~= before_clauses.push(next.last() + " = ?"@));
            assert(texts(clauses@) =~= assignments(texts(names@)));
        }
        i += 1;
    }
    assert(columns.take(schema.fields.len() as int) == columns);
    let mut values = match render_fields(object, &names) {
        Ok(values) => values,
        Err(e) => {
            return Err(e);
        },
    };
    let ghost rendered = texts(values@);
    values.push(key_text);
    assert(texts(values@) =~= update_texts(schema@, *object));
    let mut sql = String::from_str("UPDATE ");
    sql.append(schema.table_name.as_str());
    sql.append(" SET ");
    sql.append(join_strings(&clauses, ", ").as_str());
    sql.append(" WHERE ");
    sql.append(schema.primary_key.as_str());
    sql.append(" = ?");
    let st = Statement { sql, params: bind_all(values) };
    assert(st@.sql =~= update_sql(schema.table(), columns, key));
    assert(st@.params =~= text_params(update_texts(schema@, *object)));
    Ok(st)
}

/// Plans the insertion of `record` as one row: a placeholder for each column,
/// and the text bound for the record's value of each field, in column order.
pub fn insert_statement(schema: &Schema, record: &Untyped) -> (r: Result<Statement, PlanError>)
    ensures
        insert_outcome(schema@.table, schema@.columns, *record, r),
{
    let object = match record.as_object() {
        Some(o) => o,
        None => {
            return Err(PlanError::InvalidQuery);
        },
    };
    let values = match render_fields(object, &schema.fields) {
        Ok(values) => values,
        Err(e) => {
            return Err(e);
        },
    };
    let mut marks: Vec<String> = Vec::new();
    let mut i: usize = 0;
    while i < schema.fields.len()
        invariant
            i <= schema.fields.len(),
            marks@.len() == i,
            forall|j: int| 0 <= j < i ==> (#[trigger] marks@[j])@ == "?"@,
        decreases schema.fields.len() - i,
    {
        marks.push(String::from_str("?"));
        i += 1;
    }
    assert(texts(marks@) =~= placeholders(schema.columns().len()));
    let mut sql = String::from_str("INSERT INTO ");
    sql.append(schema.table_name.as_str());
    sql.append(" (");
    sql.append(join_strings(&schema.fields, ", ").as_str());
    sql.append(") VALUES (");
    sql.append(join_strings(&marks, ", ").as_str());
    sql.append(")");
    let st = Statement { sql, params: bind_all(values) };
    assert(st@.sql =~= insert_sql(schema.table(), schema.columns()));
    assert(st@.params =~= text_params(record_texts(schema.columns(), *object)));
    Ok(st)
}

/// Plans the creation of the table, unless it exists: one column per field,
/// the primary key as an integer primary key, every other field as text.
pub fn create_table_statement(schema: &Schema) -> (r: Statement)
    ensures
        r@ == create_table_plan(schema@),
{
    let mut definitions: Vec<String> = Vec::new();
    let mut i: usize = 0;
    while i < schema.fields.len()
        invariant
            i <= schema.fields.len(),
            definitions@.len() == i,
            forall|j: int|
                0 <= j < i ==> (#[trigger] definitions@[j])@ == column_definition(
                    schema.columns()[j],
                    schema.key(),
                ),
        decreases schema.fields.len() - i,
    {
        let mut definition = schema.fields[i].clone();
        if schema.fields[i].eq(&schema.primary_key) {
            definition.append(" INTEGER PRIMARY KEY");
        } else {
            definition.append(" TEXT");
        }
        definitions.push(definition);
        i += 1;
    }
    assert(texts(definitions@) =~= column_definitions(schema.columns(), schema.key()));
    let mut sql = String::from_str("CREATE TABLE IF NOT EXISTS ");
    sql.append(schema.table_name.as_str());
    sql.append(" (");
    sql.append(join_strings(&definitions, ", ").as_str());
    sql.append(")");
    let st = Statement { sql, params: Vec::new() };
    assert(st@.sql =~= create_table_sql(schema.table(), schema.columns(), schema.key()));
    assert(st@.params =~= Seq::empty());
    st
}

/// Plans the dropping of the table, if it exists.
pub fn drop_table_statement(schema: &Schema) -> (r: Statement)
    ensures
        r@ == drop_table_plan(schema@.table),
{
    let mut sql = String::from_str("DROP TABLE IF EXISTS ");
    sql.append(schema.table_name.as_str());
    let st = Statement { sql, params: Vec::new() };
    assert(st@.params =~= Seq::empty());
    st
}

/// Plans the reading of every row, all columns in order.
pub fn select_all_statement(schema: &Schema) -> (r: Statement)
    ensures
        r@ == select_all_plan(schema@.table, schema@.columns),
{
    let mut sql = String::from_str("SELECT ");
    sql.append(join_strings(&schema.fields, ", ").as_str());
    sql.append(" FROM ");
    sql.append(schema.table_name.as_str());
    let st = Statement { sql, params: Vec::new() };
    assert(st@.sql =~= select_sql(schema.table(), schema.columns()));
    assert(st@.params =~= Seq::empty());
    st
}

/// Plans the reading of the rows whose primary key is `id`, bound as an
/// integer.
pub fn find_by_id_statement(schema: &Schema, id: i64) -> (r: Statement)
    ensures
        r@ == find_by_id_plan(schema@, id),
{
    let mut sql = String::from_str("SELECT ");
    sql.append(join_strings(&schema.fields, ", ").as_str());
    sql.append(" FROM ");
    sql.append(schema.table_name.as_str());
    sql.append(" WHERE ");
    sql.append(schema.primary_key.as_str());
    sql.append(" = ?");
    let mut params: Vec<Param> = Vec::new();
    params.push(Param::Integer(id));
    let st = Statement { sql, params };
    assert(st@.sql =~= find_sql(schema.table(), schema.columns(), schema.key()));
    assert(st@.params =~= seq![ParamView::Integer(id)]);
    st
}

/// Plans the deletion of the rows whose primary key is `id`, bound as an
/// integer.
pub fn delete_statement(schema: &Schema, id: i64) -> (r: Statement)
    ensures
        r@ == delete_plan(schema@.table, schema@.key, id),
{
    let mut sql = String::from_str("DELETE FROM ");
    sql.append(schema.table_name.as_str());
    sql.append(" WHERE ");
    sql.append(schema.primary_key.as_str());
    sql.append(" = ?");
    let mut params: Vec<Param> = Vec::new();
    params.push(Param::Integer(id));
    let st = Statement { sql, params };
    assert(st@.sql =~= delete_sql(schema.table(), schema.key()));
    assert(st@.params =~= seq![ParamView::Integer(id)]);
    st
}

/// The statement that creates the table of a schema.
pub open spec fn create_table_plan(schema: SchemaView) -> StatementView {
    StatementView {
        sql: create_table_sql(schema.table, schema.columns, schema.key),
        params: Seq::empty(),
    }
}

/// The statement that drops a table.
pub open spec fn drop_table_plan(table: Seq<char>) -> StatementView {
    StatementView { sql: drop_table_sql(table), params: Seq::empty() }
}

/// The statement that reads every row of a table, the given columns in
/// order.
pub open spec fn select_all_plan(table: Seq<char>, columns: Seq<Seq<char>>) -> StatementView {
    StatementView { sql: select_sql(table, columns), params: Seq::empty() }
}

/// The statement that reads the rows with the primary key `id`.
pub open spec fn find_by_id_plan(schema: SchemaView, id: i64) -> StatementView {
    StatementView {
        sql: find_sql(schema.table, schema.columns, schema.key),
        params: seq![ParamView::Integer(id)],
    }
}

/// The statement that deletes the rows of a table whose primary key, named
/// `key`, is `id`.
pub open spec fn delete_plan(table: Seq<char>, key: Seq<char>, id: i64) -> StatementView {
    StatementView { sql: delete_sql(table, key), params: seq![ParamView::Integer(id)] }
}

/// The record store. It plans one statement per operation, for the schema
/// that the record type declares; a storage engine runs the statement.
pub struct Database {}

impl Database {
    /// A record store.
    pub fn new() -> Database {
        Database {  }
    }

    /// Plans the creation of the table of `T`: the table and the columns are
    /// those that `T` declares, the key is the one that `T` gives.
    pub fn create_table<T: Model>(&self) -> (r: Statement)
        ensures
            exists|key: Seq<char>| r@ == #[trigger] create_table_plan(declared_with::<T>(key)),
    {
        let schema = Schema::of::<T>();
        let r = create_table_statement(&schema);
        assert(r@ == create_table_plan(declared_with::<T>(schema@.key)));
        r
    }

    /// Plans the insertion of `model`, the untyped form of a record of `T`,
    /// into the table of `T`: one placeholder and one bound text for each
    /// field that `T` declares, in column order.
    pub fn insert<T: Model>(&self, model: &Untyped) -> (r: Result<Statement, PlanError>)
        ensures
            insert_outcome(T::table(), T::declared(), *model, r),
    {
        let schema = Schema::of::<T>();
        insert_statement(&schema, model)
    }

    /// Plans the reading of every row of the table of `T`, the fields that
    /// `T` declares in column order.
    pub fn select_all<T: Model>(&self) -> (r: Statement)
        ensures
            r@ == select_all_plan(T::table(), T::declared()),
    {
        let schema = Schema::of::<T>();
        select_all_statement(&schema)
    }

    /// Plans the reading of the row of `T` with the primary key `id`: the
    /// table and the columns are those that `T` declares, the key is the one
    /// that `T` gives.
    pub fn find_by_id<T: Model>(&self, id: i64) -> (r: Statement)
        ensures
            exists|key: Seq<char>| r@ == #[trigger] find_by_id_plan(declared_with::<T>(key), id),
    {
        let schema = Schema::of::<T>();
        let r = find_by_id_statement(&schema, id);
        assert(r@ == find_by_id_plan(declared_with::<T>(schema@.key), id));
        r
    }

    /// Plans the deletion of the row of `T` with the primary key `id`: the
    /// table is the one that `T` declares, the key is the one that `T` gives.
    pub fn delete<T: Model>(&self, id: i64) -> (r: Statement)
        ensures
            exists|key: Seq<char>| r@ == #[trigger] delete_plan(T::table(), key, id),
    {
        let schema = Schema::of::<T>();
        let r = delete_statement(&schema, id);
        assert(r@ == delete_plan(T::table(), schema@.key, id));
        r
    }

    /// Plans the update of the row of `model`, the untyped form of a record
    /// of `T`: the table and the columns are those that `T` declares, the
    /// key is the one that `T` gives.
    pub fn update<T: Model>(&self, model: &Untyped) -> (r: Result<Statement, PlanError>)
        ensures
            exists|key: Seq<char>| #[trigger] update_outcome(declared_with::<T>(key), *model, r),
            !(model is Object) ==> r matches Err(PlanError::InvalidQuery),
    {
        let schema = Schema::of::<T>();
        let r = update_statement(&schema, model);
        assert(update_outcome(declared_with::<T>(schema@.key), *model, r));
        r
    }

    /// Plans the dropping of the table of `T`, if it exists.
    pub fn drop_table<T: Model>(&self) -> (r: Statement)
        ensures
            r@ == drop_table_plan(T::table()),
    {
        let schema = Schema::of::<T>();
        drop_table_statement(&schema)
    }

    /// A query over the table of `T` and the fields that `T` declares,
    /// without predicate, ordering or limit: as it stands it reads what
    /// `select_all` reads.
    pub fn query<T: Model>(&self) -> (r: QueryBuilder)
        ensures
            r@ == QueryView::plain(T::table(), T::declared()),
            r@.statement() == select_all_plan(T::table(), T::declared()),
    {
        QueryBuilder::new::<T>()
    }
}

/// The fixed texts that statements are put together from hold no `?`, but for
/// the placeholder itself and the assignment of one.
pub proof fn lemma_fixed_texts()
    ensures
        plain("CREATE TABLE IF NOT EXISTS "@),
        plain("DROP TABLE IF EXISTS "@),
        plain(" INTEGER PRIMARY KEY"@),
        plain(" TEXT"@),
        plain("INSERT INTO "@),
        plain(") VALUES ("@),
        plain("SELECT "@),
        plain(" FROM "@),
        plain(" WHERE "@),
        plain("DELETE FROM "@),
        plain("UPDATE "@),
        plain(" SET "@),
        plain(" ("@),
        plain(", "@),
        plain(")"@),
        count("?"@, '?') == 1,
        count(" = ?"@, '?') == 1,
{
    reveal_strlit("CREATE TABLE IF NOT EXISTS ");
    lemma_count_absent("CREATE TABLE IF NOT EXISTS "@, '?');
    reveal_strlit("DROP TABLE IF EXISTS ");
    lemma_count_absent("DROP TABLE IF EXISTS "@, '?');
    reveal_strlit(" INTEGER PRIMARY KEY");
    lemma_count_absent(" INTEGER PRIMARY KEY"@, '?');
    reveal_strlit(" TEXT");
    lemma_count_absent(" TEXT"@, '?');
    reveal_strlit("INSERT INTO ");
    lemma_count_absent("INSERT INTO "@, '?');
    reveal_strlit(") VALUES (");
    lemma_count_absent(") VALUES ("@, '?');
    reveal_strlit("SELECT ");
    lemma_count_absent("SELECT "@, '?');
    reveal_strlit(" FROM ");
    lemma_count_absent(" FROM "@, '?');
    reveal_strlit(" WHERE ");
    lemma_count_absent(" WHERE "@, '?');
    reveal_strlit("DELETE FROM ");
    lemma_count_absent("DELETE FROM "@, '?');
    reveal_strlit("UPDATE ");
    lemma_count_absent("UPDATE "@, '?');
    reveal_strlit(" SET ");
    lemma_count_absent(" SET "@, '?');
    reveal_strlit(" (");
    lemma_count_absent(" ("@, '?');
    reveal_strlit(", ");
    lemma_count_absent(", "@, '?');
    reveal_strlit(")");
    lemma_count_absent(")"@, '?');
    reveal_strlit("?");
    reveal_strlit(" = ?");
    reveal_with_fuel(count, 5);
}

/// Leaving the key out of plain columns leaves plain columns.
pub proof fn lemma_non_key_plain(columns: Seq<Seq<char>>, key: Seq<char>)
    requires
        all_plain(columns),
    ensures
        all_plain(non_key(columns, key)),
        non_key(columns, key).len() <= columns.len(),
    decreases columns.len(),
{
    if columns.len() > 0 {
        let rest = columns.drop_last();
        assert forall|i: int| 0 <= i < rest.len() implies plain(#[trigger] rest[i]) by {
            assert(rest[i] == columns[i]);
        }
        lemma_non_key_plain(rest, key);
        assert(plain(columns[columns.len() - 1]));
    }
}

/// Leaving the key out of columns without duplicates leaves out one column
/// where the key is among them, and none where it is not.
pub proof fn lemma_non_key_len(columns: Seq<Seq<char>>, key: Seq<char>)
    requires
        columns.no_duplicates(),
    ensures
        non_key(columns, key).len() == if columns.contains(key) {
            columns.len() - 1
        } else {
            columns.len() as int
        },
    decreases columns.len(),
{
    if columns.len() > 0 {
        let rest = columns.drop_last();
        lemma_non_key_len(rest, key);
        if columns.last() == key {
            assert(columns[columns.len() - 1] == key);
            if rest.contains(key) {
                let w = choose|w: int| 0 <= w < rest.len() && rest[w] == key;
                assert(columns[w] == key);
            }
        } else {
            if columns.contains(key) {
                let w = choose|w: int| 0 <= w < columns.len() && columns[w] == key;
                assert(rest[w] == key);
            }
            if rest.contains(key) {
                let w = choose|w: int| 0 <= w < rest.len() && rest[w] == key;
                assert(columns[w] == key);
            }
        }
    }
}

/// An update of a well-formed schema binds one value per column: those of
/// the columns other than the key, then that of the key.
pub proof fn lemma_update_binds_one_per_column(schema: SchemaView, record: Object)
    requires
        schema.wf(),
    ensures
        update_texts(schema, record).len() == schema.columns.len(),
{
    lemma_non_key_len(schema.columns, schema.key);
}

/// Every placeholder is bound, and nothing else is: where the names of a
/// schema hold no `?`, the text of each statement of the record store holds
/// as many `?` as the statement binds values.
pub proof fn lemma_placeholders_match_params(schema: SchemaView, id: i64)
    requires
        plain(schema.table),
        plain(schema.key),
        all_plain(schema.columns),
    ensures
        count(create_table_plan(schema).sql, '?') == create_table_plan(schema).params.len(),
        count(drop_table_plan(schema.table).sql, '?') == drop_table_plan(schema.table).params.len(),
        count(select_all_plan(schema.table, schema.columns).sql, '?') == select_all_plan(
            schema.table,
            schema.columns,
        ).params.len(),
        count(find_by_id_plan(schema, id).sql, '?') == find_by_id_plan(schema, id).params.len(),
        count(delete_plan(schema.table, schema.key, id).sql, '?') == delete_plan(
            schema.table,
            schema.key,
            id,
        ).params.len(),
        count(insert_sql(schema.table, schema.columns), '?') == schema.columns.len(),
        count(update_sql(schema.table, schema.columns, schema.key), '?') == non_key(
            schema.columns,
            schema.key,
        ).len() + 1,
{
    let table = schema.table;
    let columns = schema.columns;
    let key = schema.key;
    lemma_fixed_texts();
    // the list of columns
    lemma_count_join_uniform(columns, ", "@, 0);
    assert(count(join(columns, ", "@), '?') == 0) by (nonlinear_arith)
        requires
            count(join(columns, ", "@), '?') == columns.len() * 0,
    ;
    // SELECT
    let select = select_sql(table, columns);
    lemma_count_concat("SELECT "@, join(columns, ", "@), '?');
    lemma_count_concat("SELECT "@ + join(columns, ", "@), " FROM "@, '?');
    lemma_count_concat("SELECT "@ + join(columns, ", "@) + " FROM "@, table, '?');
    assert(count(select, '?') == 0);
    // WHERE key = ?
    lemma_count_concat(select, " WHERE "@, '?');
    lemma_count_concat(select + " WHERE "@, key, '?');
    lemma_count_concat(select + " WHERE "@ + key, " = ?"@, '?');
    // DELETE
    lemma_count_concat("DELETE FROM "@, table, '?');
    lemma_count_concat("DELETE FROM "@ + table, " WHERE "@, '?');
    lemma_count_concat("DELETE FROM "@ + table + " WHERE "@, key, '?');
    lemma_count_concat("DELETE FROM "@ + table + " WHERE "@ + key, " = ?"@, '?');
    // DROP
    lemma_count_concat("DROP TABLE IF EXISTS "@, table, '?');
    // CREATE
    let definitions = column_definitions(columns, key);
    assert forall|i: int| 0 <= i < definitions.len() implies count(
        #[trigger] definitions[i],
        '?',
    ) == 0 by {
        assert(plain(columns[i]));
        lemma_count_concat(columns[i], " INTEGER PRIMARY KEY"@, '?');
        lemma_count_concat(columns[i], " TEXT"@, '?');
    }
    lemma_count_join_uniform(definitions, ", "@, 0);
    assert(count(join(definitions, ", "@), '?') == 0) by (nonlinear_arith)
        requires
            count(join(definitions, ", "@), '?') == definitions.len() * 0,
    ;
    lemma_count_concat("CREATE TABLE IF NOT EXISTS "@, table, '?');
    lemma_count_concat("CREATE TABLE IF NOT EXISTS "@ + table, " ("@, '?');
    lemma_count_concat(
        "CREATE TABLE IF NOT EXISTS "@ + table + " ("@,
        join(definitions, ", "@),
        '?',
    );
    lemma_count_concat(
        "CREATE TABLE IF NOT EXISTS "@ + table + " ("@ + join(definitions, ", "@),
        ")"@,
        '?',
    );
    // INSERT
    let marks = placeholders(columns.len());
    lemma_count_join_uniform(marks, ", "@, 1);
    assert(count(join(marks, ", "@), '?') == columns.len()) by (nonlinear_arith)
        requires
            count(join(marks, ", "@), '?') == marks.len() * 1,
            marks.len() == columns.len(),
    ;
    lemma_count_concat("INSERT INTO "@, table, '?');
    lemma_count_concat("INSERT INTO "@ + table, " ("@, '?');
    lemma_count_concat("INSERT INTO "@ + table + " ("@, join(columns, ", "@), '?');
    lemma_count_concat(
        "INSERT INTO "@ + table + " ("@ + join(columns, ", "@),
        ") VALUES ("@,
        '?',
    );
    lemma_count_concat(
        "INSERT INTO "@ + table + " ("@ + join(columns, ", "@) + ") VALUES ("@,
        join(marks, ", "@),
        '?',
    );
    lemma_count_concat(
        "INSERT INTO "@ + table + " ("@ + join(columns, ", "@) + ") VALUES ("@ + join(
            marks,
            ", "@,
        ),
        ")"@,
        '?',
    );
    // UPDATE
    let others = non_key(columns, key);
    lemma_non_key_plain(columns, key);
    let sets = assignments(others);
    assert forall|i: int| 0 <= i < sets.len() implies count(#[trigger] sets[i], '?') == 1 by {
        assert(plain(others[i]));
        lemma_count_concat(others[i], " = ?"@, '?');
    }
    lemma_count_join_uniform(sets, ", "@, 1);
    assert(count(join(sets, ", "@), '?') == others.len()) by (nonlinear_arith)
        requires
            count(join(sets, ", "@), '?') == sets.len() * 1,
            sets.len() == others.len(),
    ;
    lemma_count_concat("UPDATE "@, table, '?');
    lemma_count_concat("UPDATE "@ + table, " SET "@, '?');
    lemma_count_concat("UPDATE "@ + table + " SET "@, join(sets, ", "@), '?');
    lemma_count_concat("UPDATE "@ + table + " SET "@ + join(sets, ", "@), " WHERE "@, '?');
    lemma_count_concat(
        "UPDATE "@ + table + " SET "@ + join(sets, ", "@) + " WHERE "@,
        key,
        '?',
    );
    lemma_count_concat(
        "UPDATE "@ + table + " SET "@ + join(sets, ", "@) + " WHERE "@ + key,
        " = ?"@,
        '?',
    );
}

/// A planned insertion or update binds a value to every placeholder of its
/// text, where the names of the schema hold no `?`.
pub proof fn lemma_planned_writes_bind_every_placeholder(
    schema: SchemaView,
    record: Untyped,
    statement: Statement,
)
    requires
        plain(schema.table),
        plain(schema.key),
        all_plain(schema.columns),
    ensures
        insert_outcome(schema.table, schema.columns, record, Ok(statement)) ==> count(statement@.sql, '?')
            == statement@.params.len(),
        update_outcome(schema, record, Ok(statement)) ==> count(statement@.sql, '?')
            == statement@.params.len(),
{
    lemma_placeholders_match_params(schema, 0);
}

} // verus!
