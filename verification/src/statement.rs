//! Statements for the storage engine: SQL text and the values bound to it.

use crate::text::{join, texts};
use vstd::prelude::*;
use vstd::string::*;

verus! {

/// A value bound to a placeholder of a statement.
#[derive(Clone, Debug, PartialEq)]
pub enum Param {
    /// Bound as text.
    Text(String),
    /// Bound as a 64-bit integer.
    Integer(i64),
}

/// What a bound value is.
pub enum ParamView {
    Text(Seq<char>),
    Integer(i64),
}

impl View for Param {
    type V = ParamView;

    open spec fn view(&self) -> ParamView {
        match self {
            Param::Text(s) => ParamView::Text(s@),
            Param::Integer(i) => ParamView::Integer(*i),
        }
    }
}

/// A statement: SQL text with `?` placeholders, and the values bound to them
/// by position.
#[derive(Clone, Debug, PartialEq)]
pub struct Statement {
    pub sql: String,
    pub params: Vec<Param>,
}

/// What a statement is.
pub struct StatementView {
    pub sql: Seq<char>,
    pub params: Seq<ParamView>,
}

impl View for Statement {
    type V = StatementView;

    open spec fn view(&self) -> StatementView {
        StatementView { sql: self.sql@, params: Seq::new(self.params@.len(), |i: int| self.params@[i]@) }
    }
}

/// The texts `values`, each bound as text.
pub open spec fn text_params(values: Seq<Seq<char>>) -> Seq<ParamView> {
    Seq::new(values.len(), |i: int| ParamView::Text(values[i]))
}

/// Why a record could not be turned into a statement.
#[derive(Debug)]
pub enum PlanError {
    /// The record is no mapping, lacks a declared field, or has a primary key
    /// that is neither a number nor a string.
    InvalidQuery,
    /// A compound value could not be written as text.
    ToSqlConversionFailure(serde_json::Error),
}

/// Binds each text of `values` as text.
pub fn bind_all(values: Vec<String>) -> (r: Vec<Param>)
    ensures
        Seq::new(r@.len(), |i: int| r@[i]@) == text_params(texts(values@)),
{
    let mut out: Vec<Param> = Vec::new();
    for s in it: values
        invariant
            it.seq() == values@,
            out@.len() == it.index(),
            forall|j: int| 0 <= j < out@.len() ==> (#[trigger] out@[j])@ == ParamView::Text(values@[j]@),
    {
        out.push(Param::Text(s));
    }
    assert(Seq::new(out@.len(), |i: int| out@[i]@) =~= text_params(texts(values@)));
    out
}

} // verus!
