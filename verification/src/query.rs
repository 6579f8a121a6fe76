//! The statement builder: a read query put together from predicates, an
//! ordering and a row limit.
//!
//! A predicate contributes the text `<field> <op> ?` to the statement and its
//! value to the bound values; the value itself never becomes SQL text.

use crate::db::{lemma_fixed_texts, select_all_plan, select_sql};
use crate::model::{Model, Schema};
use crate::statement::{bind_all, text_params, Statement, StatementView};
use crate::text::{
    all_plain, count, decimal, join, join_strings, lemma_count_absent, lemma_count_concat,
    lemma_count_decimal, lemma_count_join_uniform, plain, texts, u64_text,
};
use vstd::prelude::*;
use vstd::string::*;

verus! {

/// A read query under construction.
///
/// It is consumed by `fetch` or `fetch_one`, which give the statement to run.
pub struct QueryBuilder {
    table_name: String,
    fields: Vec<String>,
    where_clauses: Vec<String>,
    where_values: Vec<String>,
    order_by: Option<String>,
    limit: Option<usize>,
}

/// What a query under construction is.
pub struct QueryView {
    /// The table read from.
    pub table: Seq<char>,
    /// The columns read, in order.
    pub fields: Seq<Seq<char>>,
    /// The predicates, in the order they were added; all of them must hold.
    pub clauses: Seq<Seq<char>>,
    /// The values bound to the predicates' placeholders, in the same order.
    pub values: Seq<Seq<char>>,
    /// The ordering, if one was asked for.
    pub order: Option<Seq<char>>,
    /// The greatest number of rows, if one was asked for.
    pub limit: Option<usize>,
}

impl QueryView {
    /// The query that reads all of the table's rows.
    pub open spec fn plain(table: Seq<char>, fields: Seq<Seq<char>>) -> QueryView {
        QueryView {
            table,
            fields,
            clauses: Seq::empty(),
            values: Seq::empty(),
            order: None,
            limit: None,
        }
    }

    /// The query with one more predicate `<field><op>?` and its value.
    pub open spec fn with_predicate(self, field: Seq<char>, op: Seq<char>, value: Seq<char>) -> QueryView {
        QueryView {
            clauses: self.clauses.push(field + op + "?"@),
            values: self.values.push(value),
            ..self
        }
    }

    /// The query with its ordering set.
    pub open spec fn with_order(self, field: Seq<char>, ascending: bool) -> QueryView {
        QueryView {
            order: Some(
                field + if ascending {
                    " ASC"@
                } else {
                    " DESC"@
                },
            ),
            ..self
        }
    }

    /// The query with its row limit set.
    pub open spec fn with_limit(self, limit: usize) -> QueryView {
        QueryView { limit: Some(limit), ..self }
    }

    /// The `WHERE` part of the statement text.
    pub open spec fn where_sql(self) -> Seq<char> {
        if self.clauses.len() > 0 {
            " WHERE "@ + join(self.clauses, " AND "@)
        } else {
            Seq::empty()
        }
    }

    /// The `ORDER BY` part of the statement text.
    pub open spec fn order_sql(self) -> Seq<char> {
        match self.order {
            Some(order) => " ORDER BY "@ + order,
            None => Seq::empty(),
        }
    }

    /// The `LIMIT` part of the statement text: the limit as a literal.
    pub open spec fn limit_sql(self) -> Seq<char> {
        match self.limit {
            Some(limit) => " LIMIT "@ + decimal(limit as nat),
            None => Seq::empty(),
        }
    }

    /// The statement text of the query.
    pub open spec fn sql(self) -> Seq<char> {
        select_sql(self.table, self.fields) + self.where_sql() + self.order_sql() + self.limit_sql()
    }

    /// The statement of the query: its text, and its values bound as text.
    pub open spec fn statement(self) -> StatementView {
        StatementView { sql: self.sql(), params: text_params(self.values) }
    }
}

impl View for QueryBuilder {
    type V = QueryView;

    closed spec fn view(&self) -> QueryView {
        QueryView {
            table: self.table_name@,
            fields: texts(self.fields@),
            clauses: texts(self.where_clauses@),
            values: texts(self.where_values@),
            order: match self.order_by {
                Some(order) => Some(order@),
                None => None,
            },
            limit: self.limit,
        }
    }
}

impl QueryBuilder {
    /// The query that reads all rows of the table of the record type `T`:
    /// table and columns are those that `T` declares, and the query has no
    /// predicate, no ordering and no limit.
    pub fn new<T: Model>() -> (r: QueryBuilder)
        ensures
            r@ == QueryView::plain(T::table(), T::declared()),
            r@.statement() == select_all_plan(T::table(), T::declared()),
    {
        let schema = Schema::of::<T>();
        proof {
            lemma_plain_query_selects_all(T::table(), T::declared());
        }
        QueryBuilder::for_schema(&schema)
    }

    /// The query that reads all rows of the schema's table.
    pub fn for_schema(schema: &Schema) -> (r: QueryBuilder)
        ensures
            r@ == QueryView::plain(schema.table(), schema.columns()),
    {
        let r = QueryBuilder {
            table_name: schema.table_name.clone(),
            fields: schema.fields.clone(),
            where_clauses: Vec::new(),
            where_values: Vec::new(),
            order_by: None,
            limit: None,
        };
        assert(r@.clauses =~= Seq::empty());
        assert(r@.values =~= Seq::empty());
        r
    }

    /// The columns that the query reads, in order: the fields that the rows
    /// of its statement are matched to.
    pub fn fields(&self) -> (r: &Vec<String>)
        ensures
            texts(r@) == self@.fields,
    {
        &self.fields
    }

    fn predicate(self, field: &str, op: &str, value: &str) -> (r: QueryBuilder)
        ensures
            r@ == self@.with_predicate(field@, op@, value@),
    {
        let mut builder = self;
        let mut clause = String::from_str(field);
        clause.append(op);
        clause.append("?");
        builder.where_clauses.push(clause);
        builder.where_values.push(String::from_str(value));
        assert(builder@.clauses =~= self@.clauses.push(field@ + op@ + "?"@));
        assert(builder@.values =~= self@.values.push(value@));
        builder
    }

    /// Adds the predicate `<field> = ?`, with `value` bound to it.
    pub fn where_eq(self, field: &str, value: &str) -> (r: QueryBuilder)
        ensures
            r@ == self@.with_predicate(field@, " = "@, value@),
    {
        self.predicate(field, " = ", value)
    }

    /// Adds the predicate `<field> LIKE ?`, with `pattern` bound to it.
    pub fn where_like(self, field: &str, pattern: &str) -> (r: QueryBuilder)
        ensures
            r@ == self@.with_predicate(field@, " LIKE "@, pattern@),
    {
        self.predicate(field, " LIKE ", pattern)
    }

    /// Adds the predicate `<field> > ?`, with `value` bound to it.
    pub fn where_gt(self, field: &str, value: &str) -> (r: QueryBuilder)
        ensures
            r@ == self@.with_predicate(field@, " > "@, value@),
    {
        self.predicate(field, " > ", value)
    }

    /// Adds the predicate `<field> < ?`, with `value` bound to it.
    pub fn where_lt(self, field: &str, value: &str) -> (r: QueryBuilder)
        ensures
            r@ == self@.with_predicate(field@, " < "@, value@),
    {
        self.predicate(field, " < ", value)
    }

    /// Sets the ordering, in place of any earlier one.
    pub fn order_by(self, field: &str, ascending: bool) -> (r: QueryBuilder)
        ensures
            r@ == self@.with_order(field@, ascending),
    {
        let mut builder = self;
        let mut order = String::from_str(field);
        if ascending {
            order.append(" ASC");
        } else {
            order.append(" DESC");
        }
        builder.order_by = Some(order);
        builder
    }

    /// Sets the greatest number of rows, in place of any earlier one.
    pub fn limit(self, limit: usize) -> (r: QueryBuilder)
        ensures
            r@ == self@.with_limit(limit),
    {
        let mut builder = self;
        builder.limit = Some(limit);
        builder
    }

    /// Consumes the query and gives its statement: the text with one
    /// placeholder per predicate, and the predicates' values bound as text in
    /// the order the predicates were added.
    pub fn fetch(self) -> (r: Statement)
        ensures
            r@ == self@.statement(),
    {
        let mut sql = String::from_str("SELECT ");
        sql.append(join_strings(&self.fields, ", ").as_str());
        sql.append(" FROM ");
        sql.append(self.table_name.as_str());
        if self.where_clauses.len() > 0 {
            sql.append(" WHERE ");
            sql.append(join_strings(&self.where_clauses, " AND ").as_str());
        }
        match &self.order_by {
            Some(order) => {
                sql.append(" ORDER BY ");
                sql.append(order.as_str());
            },
            None => {},
        }
        match self.limit {
            Some(limit) => {
                sql.append(" LIMIT ");
                sql.append(u64_text(limit as u64).as_str());
            },
            None => {},
        }
        assert(sql@ =~= self@.sql());
        let ghost values = self@.values;
        let st = Statement { sql, params: bind_all(self.where_values) };
        assert(st@.params =~= text_params(values));
        st
    }

    /// Consumes the query and gives its statement with the row limit set to
    /// one.
    pub fn fetch_one(self) -> (r: Statement)
        ensures
            r@ == self@.with_limit(1).statement(),
    {
        self.limit(1).fetch()
    }
}

/// A query without predicate, ordering and limit reads every row: its
/// statement is the one that `select_all` plans for the same table and
/// columns.
pub proof fn lemma_plain_query_selects_all(table: Seq<char>, columns: Seq<Seq<char>>)
    ensures
        QueryView::plain(table, columns).statement() == select_all_plan(table, columns),
{
    let q = QueryView::plain(table, columns);
    assert(q.sql() =~= select_sql(table, columns));
    assert(q.statement().params =~= Seq::empty());
}

/// The statement text of a query does not depend on the values that are
/// bound to its predicates: adding a predicate with one value or with another
/// gives the same text, and the value becomes the last bound value.
pub proof fn lemma_values_stay_out_of_sql(
    q: QueryView,
    field: Seq<char>,
    op: Seq<char>,
    v1: Seq<char>,
    v2: Seq<char>,
)
    ensures
        q.with_predicate(field, op, v1).sql() == q.with_predicate(field, op, v2).sql(),
        q.with_predicate(field, op, v1).statement().params == q.statement().params.push(
            crate::statement::ParamView::Text(v1),
        ),
{
    assert(q.with_predicate(field, op, v1).statement().params =~= q.statement().params.push(
        crate::statement::ParamView::Text(v1),
    ));
}

/// Ordering and limit compose: whichever is set first, the statement ends
/// with the ordering followed by the limit, and a later ordering or limit
/// replaces an earlier one.
pub proof fn lemma_order_and_limit(q: QueryView, field: Seq<char>, ascending: bool, limit: usize)
    ensures
        q.with_order(field, ascending).with_limit(limit) == q.with_limit(limit).with_order(
            field,
            ascending,
        ),
        q.with_order(field, ascending).with_limit(limit).sql() == select_sql(q.table, q.fields)
            + q.where_sql() + " ORDER BY "@ + field + (if ascending {
            " ASC"@
        } else {
            " DESC"@
        }) + " LIMIT "@ + decimal(limit as nat),
        forall|other: Seq<char>, direction: bool|
            q.with_order(other, direction).with_order(field, ascending) == q.with_order(
                field,
                ascending,
            ),
        forall|other: usize| q.with_limit(other).with_limit(limit) == q.with_limit(limit),
{
    let both = q.with_order(field, ascending).with_limit(limit);
    let direction = if ascending {
        " ASC"@
    } else {
        " DESC"@
    };
    assert(both.sql() =~= select_sql(q.table, q.fields) + q.where_sql() + " ORDER BY "@ + field
        + direction + " LIMIT "@ + decimal(limit as nat));
}

impl QueryView {
    /// What the builder keeps of a query: a value for each predicate, one
    /// placeholder in each predicate, and none in a name.
    pub open spec fn sound(self) -> bool {
        &&& self.clauses.len() == self.values.len()
        &&& forall|i: int| 0 <= i < self.clauses.len() ==> count(#[trigger] self.clauses[i], '?') == 1
        &&& plain(self.table)
        &&& all_plain(self.fields)
        &&& self.order matches Some(order) ==> plain(order)
    }
}

/// The builder keeps a query sound: the plain query over plain names is
/// sound, and a predicate, an ordering or a limit on plain names leaves a
/// sound query sound.
pub proof fn lemma_builder_keeps_sound(
    q: QueryView,
    field: Seq<char>,
    op: Seq<char>,
    value: Seq<char>,
    ascending: bool,
    limit: usize,
)
    ensures
        plain(q.table) && all_plain(q.fields) ==> QueryView::plain(q.table, q.fields).sound(),
        q.sound() && plain(field) && plain(op) ==> q.with_predicate(field, op, value).sound(),
        q.sound() && plain(field) ==> q.with_order(field, ascending).sound(),
        q.sound() ==> q.with_limit(limit).sound(),
{
    lemma_fixed_texts();
    if q.sound() && plain(field) && plain(op) {
        let next = q.with_predicate(field, op, value);
        lemma_count_concat(field, op, '?');
        lemma_count_concat(field + op, "?"@, '?');
        assert forall|i: int| 0 <= i < next.clauses.len() implies count(
            #[trigger] next.clauses[i],
            '?',
        ) == 1 by {
            if i < q.clauses.len() {
                assert(next.clauses[i] == q.clauses[i]);
            }
        }
    }
    if q.sound() && plain(field) {
        reveal_strlit(" ASC");
        lemma_count_absent(" ASC"@, '?');
        reveal_strlit(" DESC");
        lemma_count_absent(" DESC"@, '?');
        lemma_count_concat(field, " ASC"@, '?');
        lemma_count_concat(field, " DESC"@, '?');
    }
}

/// Every placeholder is bound, and nothing else is: the statement of a sound
/// query holds as many `?` as it binds values, whatever the values are.
pub proof fn lemma_query_placeholders_match_params(q: QueryView)
    requires
        q.sound(),
    ensures
        count(q.sql(), '?') == q.statement().params.len(),
{
    lemma_fixed_texts();
    let select = select_sql(q.table, q.fields);
    lemma_select_plain(q.table, q.fields);
    reveal_strlit(" AND ");
    lemma_count_absent(" AND "@, '?');
    if q.clauses.len() > 0 {
        lemma_count_join_uniform(q.clauses, " AND "@, 1);
        assert(count(join(q.clauses, " AND "@), '?') == q.clauses.len()) by (nonlinear_arith)
            requires
                count(join(q.clauses, " AND "@), '?') == q.clauses.len() * 1,
        ;
        lemma_count_concat(" WHERE "@, join(q.clauses, " AND "@), '?');
    }
    assert(count(q.where_sql(), '?') == q.clauses.len());
    match q.order {
        Some(order) => {
            reveal_strlit(" ORDER BY ");
            lemma_count_absent(" ORDER BY "@, '?');
            lemma_count_concat(" ORDER BY "@, order, '?');
        },
        None => {},
    }
    assert(count(q.order_sql(), '?') == 0);
    match q.limit {
        Some(limit) => {
            reveal_strlit(" LIMIT ");
            lemma_count_absent(" LIMIT "@, '?');
            lemma_count_decimal(limit as nat, '?');
            lemma_count_concat(" LIMIT "@, decimal(limit as nat), '?');
        },
        None => {},
    }
    assert(count(q.limit_sql(), '?') == 0);
    lemma_count_concat(select, q.where_sql(), '?');
    lemma_count_concat(select + q.where_sql(), q.order_sql(), '?');
    lemma_count_concat(select + q.where_sql() + q.order_sql(), q.limit_sql(), '?');
}

/// The text that reads plain columns of a plain table holds no `?`.
pub proof fn lemma_select_plain(table: Seq<char>, fields: Seq<Seq<char>>)
    requires
        plain(table),
        all_plain(fields),
    ensures
        plain(select_sql(table, fields)),
{
    lemma_fixed_texts();
    lemma_count_join_uniform(fields, ", "@, 0);
    assert(count(join(fields, ", "@), '?') == 0) by (nonlinear_arith)
        requires
            count(join(fields, ", "@), '?') == fields.len() * 0,
    ;
    lemma_count_concat("SELECT "@, join(fields, ", "@), '?');
    lemma_count_concat("SELECT "@ + join(fields, ", "@), " FROM "@, '?');
    lemma_count_concat("SELECT "@ + join(fields, ", "@) + " FROM "@, table, '?');
}

} // verus!
