//! The coercive value bridge: from the columns of a row to an untyped
//! record, and from an untyped value to what a typed field is given.
//!
//! A column may come back in another representation than the field expects:
//! a number that was stored as text comes back as text. The bridge decides,
//! for the shape that a field asks for, what the field is handed.

use crate::db::{bound_text, insert_outcome, record_texts};
use crate::model::Model;
use crate::statement::{ParamView, Statement};
use crate::text::{
    lemma_parse_signed_decimal, parse_i64, parse_in_range, parse_u64, signed_decimal, texts,
};
use crate::value::{in_key_order, inserted, lemma_inserted_in_key_order, Number, Object, Untyped};
use vstd::prelude::*;
use vstd::string::*;

verus! {

/// A failure of the bridge, with its message.
#[derive(Debug)]
pub struct DeserError(String);

impl DeserError {
    /// The message of the error.
    pub closed spec fn message(self) -> Seq<char> {
        self.0@
    }

    /// The error with the given message.
    pub fn custom(msg: &str) -> (r: DeserError)
        ensures
            r.message() == msg@,
    {
        DeserError(String::from_str(msg))
    }

    /// The message of the error.
    pub fn to_string(&self) -> (r: String)
        ensures
            r@ == self.message(),
    {
        self.0.clone()
    }
}

/// What reading a column as a floating number gave.
#[derive(Debug, PartialEq)]
pub enum Real {
    /// A finite number, by its decimal text.
    Finite(String),
    /// An infinity or not a number.
    NonFinite,
}

/// A column of a row, as the three reads of it came out: as a 64-bit integer,
/// as text, and as a floating number. A read that failed is `None`.
#[derive(Debug, PartialEq)]
pub struct Column {
    pub as_integer: Option<i64>,
    pub as_text: Option<String>,
    pub as_real: Option<Real>,
}

/// The number that holds the integer `i`.
pub open spec fn number_of(i: i64) -> Number {
    if i < 0 {
        Number::NegInt(i)
    } else {
        Number::PosInt(i as u64)
    }
}

/// The untyped value of a column: the first read that succeeded counts, the
/// integer before the text, the text before the floating number. A floating
/// number that is not finite counts as zero. Where no read succeeded the
/// value is null.
pub open spec fn column_value(c: Column) -> Untyped {
    match c.as_integer {
        Some(i) => Untyped::Number(number_of(i)),
        None => match c.as_text {
            Some(s) => Untyped::String(s),
            None => match c.as_real {
                Some(Real::Finite(t)) => Untyped::Number(Number::Float(t)),
                Some(Real::NonFinite) => Untyped::Number(Number::PosInt(0)),
                None => Untyped::Null,
            },
        },
    }
}

/// The untyped value at position `i` of a row: that of its column, null
/// where the row has no such column.
pub open spec fn cell(row: Seq<Column>, i: int) -> Untyped {
    if 0 <= i < row.len() {
        column_value(row[i])
    } else {
        Untyped::Null
    }
}

/// The value that a row gives to the field `key`: fields are matched to
/// columns by position, and the last field of that name counts.
pub open spec fn row_lookup(fields: Seq<Seq<char>>, row: Seq<Column>, key: Seq<char>) -> Option<
    Untyped,
>
    decreases fields.len(),
{
    if fields.len() == 0 {
        None
    } else if fields.last() == key {
        Some(cell(row, fields.len() - 1))
    } else {
        row_lookup(fields.drop_last(), row, key)
    }
}

/// A row gives a value to exactly the fields that are named.
pub proof fn lemma_row_lookup_contains(fields: Seq<Seq<char>>, row: Seq<Column>, key: Seq<char>)
    ensures
        row_lookup(fields, row, key) is Some <==> fields.contains(key),
    decreases fields.len(),
{
    if fields.len() > 0 {
        let rest = fields.drop_last();
        lemma_row_lookup_contains(rest, row, key);
        if fields.last() == key {
            assert(fields[fields.len() - 1] == key);
        } else {
            if rest.contains(key) {
                let w = choose|w: int| 0 <= w < rest.len() && rest[w] == key;
                assert(fields[w] == key);
            }
            if fields.contains(key) {
                let w = choose|w: int| 0 <= w < fields.len() && fields[w] == key;
                assert(rest[w] == key);
            }
        }
    }
}

/// Where no field is named twice, the row gives each field the value at the
/// field's own position.
pub proof fn lemma_row_lookup_at(fields: Seq<Seq<char>>, row: Seq<Column>, i: int)
    requires
        fields.no_duplicates(),
        0 <= i < fields.len(),
    ensures
        row_lookup(fields, row, fields[i]) == Some(cell(row, i)),
    decreases fields.len(),
{
    if i < fields.len() - 1 {
        let rest = fields.drop_last();
        assert(fields.last() == fields[fields.len() - 1]);
        assert(rest[i] == fields[i]);
        lemma_row_lookup_at(rest, row, i);
    }
}

/// Reads the untyped value of a column.
pub fn read_column(c: &Column) -> (r: Untyped)
    ensures
        r == column_value(*c),
{
    match c.as_integer {
        Some(i) => Untyped::Number(Number::from_i64(i)),
        None => match &c.as_text {
            Some(s) => Untyped::String(s.clone()),
            None => match &c.as_real {
                Some(Real::Finite(t)) => Untyped::Number(Number::Float(t.clone())),
                Some(Real::NonFinite) => Untyped::Number(Number::PosInt(0)),
                None => Untyped::Null,
            },
        },
    }
}

/// An untyped value on its way into a typed field.
#[derive(Debug, PartialEq)]
pub struct LooseValue(pub Untyped);

/// The entries of the record of a row: each field in turn is given the
/// value of the column at its position.
pub open spec fn row_entries(fields: Seq<String>, row: Seq<Column>) -> Seq<(String, Untyped)>
    decreases fields.len(),
{
    if fields.len() == 0 {
        Seq::empty()
    } else {
        inserted(
            row_entries(fields.drop_last(), row),
            fields.last(),
            cell(row, fields.len() - 1),
        )
    }
}

/// The record of a row holds its keys in order.
pub proof fn lemma_row_entries_in_key_order(fields: Seq<String>, row: Seq<Column>)
    ensures
        in_key_order(row_entries(fields, row)),
    decreases fields.len(),
{
    if fields.len() > 0 {
        lemma_row_entries_in_key_order(fields.drop_last(), row);
        lemma_inserted_in_key_order(
            row_entries(fields.drop_last(), row),
            fields.last(),
            cell(row, fields.len() - 1),
        );
    }
}

/// Rebuilds the untyped record of a row: each field, in the order of
/// `fields`, gets the value of the column at its position. The record holds
/// its keys in order.
pub fn row_to_model(row: &Vec<Column>, fields: &Vec<String>) -> (r: LooseValue)
    ensures
        r.0 is Object,
        r.0->Object_0.entries@ == row_entries(fields@, row@),
        in_key_order(r.0->Object_0.entries@),
        forall|k: Seq<char>| r.0->Object_0.value_of(k) == row_lookup(texts(fields@), row@, k),
{
    let ghost names = texts(fields@);
    let mut object = Object::new();
    let mut i: usize = 0;
    assert(fields@.take(0) == Seq::<String>::empty());
    while i < fields.len()
        invariant
            i <= fields.len(),
            names == texts(fields@),
            object.entries@ == row_entries(fields@.take(i as int), row@),
            forall|k: Seq<char>| object.value_of(k) == row_lookup(names.take(i as int), row@, k),
        decreases fields.len() - i,
    {
        let value = if i < row.len() {
            read_column(&row[i])
        } else {
            Untyped::Null
        };
        let ghost before = object;
        let ghost seen = names.take(i as int);
        let ghost next = names.take(i + 1);
        let key = fields[i].clone();
        proof {
            assert(next.drop_last() == seen);
            assert(next.last() == fields@[i as int]@);
            assert(fields@.take(i + 1).drop_last() == fields@.take(i as int));
            assert(fields@.take(i + 1).last() == key);
            assert(value == cell(row@, i as int));
        }
        object.insert(key, value);
        proof {
            assert forall|k: Seq<char>| object.value_of(k) == row_lookup(next, row@, k) by {
                assert(before.value_of(k) == row_lookup(seen, row@, k));
            }
        }
        i += 1;
    }
    assert(names.take(fields.len() as int) == names);
    assert(fields@.take(fields.len() as int) == fields@);
    proof {
        lemma_row_entries_in_key_order(fields@, row@);
    }
    LooseValue(Untyped::Object(object))
}

/// Rebuilds the untyped records of all rows, in the order of the rows.
pub fn rows_to_models(rows: &Vec<Vec<Column>>, fields: &Vec<String>) -> (r: Vec<LooseValue>)
    ensures
        r@.len() == rows@.len(),
        forall|n: int|
            0 <= n < rows@.len() ==> (#[trigger] r@[n]).0 is Object && r@[n].0->Object_0.entries@
                == row_entries(fields@, rows@[n]@),
        forall|n: int, k: Seq<char>|
            0 <= n < rows@.len() ==> (#[trigger] r@[n].0->Object_0.value_of(k)) == row_lookup(
                texts(fields@),
                rows@[n]@,
                k,
            ),
{
    let mut out: Vec<LooseValue> = Vec::new();
    let mut n: usize = 0;
    while n < rows.len()
        invariant
            n <= rows.len(),
            out@.len() == n,
            forall|m: int|
                0 <= m < n ==> (#[trigger] out@[m]).0 is Object && out@[m].0->Object_0.entries@
                    == row_entries(fields@, rows@[m]@),
            forall|m: int, k: Seq<char>|
                0 <= m < n ==> (#[trigger] out@[m].0->Object_0.value_of(k)) == row_lookup(
                    texts(fields@),
                    rows@[m]@,
                    k,
                ),
        decreases rows.len() - n,
    {
        let record = row_to_model(&rows[n], fields);
        out.push(record);
        n += 1;
    }
    out
}

/// Rebuilds the untyped record of the first row, if there is a row.
pub fn first_row_to_model(rows: &Vec<Vec<Column>>, fields: &Vec<String>) -> (r: Option<LooseValue>)
    ensures
        r is Some <==> rows@.len() > 0,
        r matches Some(record) ==> {
            &&& record.0 is Object
            &&& record.0->Object_0.entries@ == row_entries(fields@, rows@[0]@)
            &&& forall|k: Seq<char>|
                record.0->Object_0.value_of(k) == row_lookup(texts(fields@), rows@[0]@, k)
        },
{
    if rows.len() > 0 {
        Some(row_to_model(&rows[0], fields))
    } else {
        None
    }
}

/// A floating number that a field is handed.
#[derive(Debug, PartialEq)]
pub enum Float {
    /// The number with this decimal text.
    Text(String),
    /// The unsigned integer, as a floating number.
    OfU64(u64),
    /// The signed integer, as a floating number.
    OfI64(i64),
}

/// The elements of a sequence that are still to be handed out.
#[derive(Debug, PartialEq)]
pub struct LooseSeqAccess {
    pub items: Vec<Untyped>,
    pub next: usize,
}

/// The entries of a mapping that are still to be handed out, and the value
/// of the entry whose key was handed out last.
#[derive(Debug, PartialEq)]
pub struct LooseMapAccess {
    pub entries: Vec<(String, Untyped)>,
    pub next: usize,
    pub value: Option<Untyped>,
}

/// What a typed field is handed.
#[derive(Debug, PartialEq)]
pub enum Visit {
    /// Nothing: the unit value.
    Unit,
    Bool(bool),
    I8(i8),
    I16(i16),
    I32(i32),
    I64(i64),
    U8(u8),
    U16(u16),
    U32(u32),
    U64(u64),
    /// A floating number, to be taken in single precision.
    F32(Float),
    /// A floating number, to be taken in double precision.
    F64(Float),
    /// A text to be read as a single-precision floating number. Where it is
    /// no such number the field is handed the text as a string.
    ParseF32(String),
    /// A text to be read as a double-precision floating number. Where it is
    /// no such number the field is handed the text as a string.
    ParseF64(String),
    String(String),
    /// The elements of a sequence, each on its way into a typed element.
    Sequence(LooseSeqAccess),
    /// The entries of a mapping, each value on its way into a typed value.
    Mapping(LooseMapAccess),
    /// An optional field that is absent.
    Absent,
    /// An optional field that is present, with the value for the wrapped
    /// type.
    Present(LooseValue),
    /// The name of a variant of an enumeration.
    Variant(String),
}

/// What a field without a particular shape is handed: a value goes in as
/// what it is. An integer goes in signed where it fits in 64 signed bits.
pub open spec fn visit_any(v: Untyped) -> Visit {
    match v {
        Untyped::Null => Visit::Unit,
        Untyped::Bool(b) => Visit::Bool(b),
        Untyped::Number(Number::PosInt(u)) => if u <= i64::MAX {
            Visit::I64(u as i64)
        } else {
            Visit::U64(u)
        },
        Untyped::Number(Number::NegInt(i)) => Visit::I64(i),
        Untyped::Number(Number::Float(t)) => Visit::F64(Float::Text(t)),
        Untyped::String(s) => Visit::String(s),
        Untyped::Array(items) => Visit::Sequence(LooseSeqAccess { items, next: 0 }),
        Untyped::Object(o) => Visit::Mapping(
            LooseMapAccess { entries: o.entries, next: 0, value: None },
        ),
    }
}

/// The signed integer that a value offers to a field of the range from `lo`
/// to `hi`: a text that is a numeral of that range offers its number, a
/// number that is an integer of 64 signed bits offers itself, whatever its
/// size. Anything else offers nothing.
pub open spec fn signed_offer(v: Untyped, lo: int, hi: int) -> Option<i64> {
    match v {
        Untyped::String(s) => match parse_in_range(s@, true, lo, hi) {
            Some(n) => Some(n as i64),
            None => None,
        },
        Untyped::Number(n) => n.i64_value(),
        _ => None,
    }
}

/// The unsigned integer that a value offers to a field of the range from
/// zero to `hi`: a text that is a numeral of that range offers its number, a
/// number held as an unsigned integer offers itself, whatever its size.
/// Anything else offers nothing.
pub open spec fn unsigned_offer(v: Untyped, hi: int) -> Option<u64> {
    match v {
        Untyped::String(s) => match parse_in_range(s@, false, 0, hi) {
            Some(n) => Some(n as u64),
            None => None,
        },
        Untyped::Number(n) => n.u64_value(),
        _ => None,
    }
}

/// What a floating field is handed: a text is to be read as a number, a
/// number goes in as a floating number, anything else goes in as what it is.
pub open spec fn visit_float(v: Untyped, single: bool) -> Visit {
    match v {
        Untyped::String(s) => if single {
            Visit::ParseF32(s)
        } else {
            Visit::ParseF64(s)
        },
        Untyped::Number(n) => {
            let f = match n {
                Number::PosInt(u) => Float::OfU64(u),
                Number::NegInt(i) => Float::OfI64(i),
                Number::Float(t) => Float::Text(t),
            };
            if single {
                Visit::F32(f)
            } else {
                Visit::F64(f)
            }
        },
        _ => visit_any(v),
    }
}

/// What an 8-bit signed field is handed: the integer that the value offers,
/// cut down to 8 bits, or else what any field is handed.
pub open spec fn visit_i8(v: Untyped) -> Visit {
    match signed_offer(v, i8::MIN as int, i8::MAX as int) {
        Some(i) => Visit::I8(i as i8),
        None => visit_any(v),
    }
}

/// What a 16-bit signed field is handed: the integer that the value offers,
/// cut down to 16 bits, or else what any field is handed.
pub open spec fn visit_i16(v: Untyped) -> Visit {
    match signed_offer(v, i16::MIN as int, i16::MAX as int) {
        Some(i) => Visit::I16(i as i16),
        None => visit_any(v),
    }
}

/// What a 32-bit signed field is handed: the integer that the value offers,
/// cut down to 32 bits, or else what any field is handed.
pub open spec fn visit_i32(v: Untyped) -> Visit {
    match signed_offer(v, i32::MIN as int, i32::MAX as int) {
        Some(i) => Visit::I32(i as i32),
        None => visit_any(v),
    }
}

/// What a 64-bit signed field is handed: the integer that the value offers,
/// or else what any field is handed.
pub open spec fn visit_i64(v: Untyped) -> Visit {
    match signed_offer(v, i64::MIN as int, i64::MAX as int) {
        Some(i) => Visit::I64(i),
        None => visit_any(v),
    }
}

/// What an 8-bit unsigned field is handed: the integer that the value offers,
/// cut down to 8 bits, or else what any field is handed.
pub open spec fn visit_u8(v: Untyped) -> Visit {
    match unsigned_offer(v, u8::MAX as int) {
        Some(i) => Visit::U8(i as u8),
        None => visit_any(v),
    }
}

/// What a 16-bit unsigned field is handed: the integer that the value offers,
/// cut down to 16 bits, or else what any field is handed.
pub open spec fn visit_u16(v: Untyped) -> Visit {
    match unsigned_offer(v, u16::MAX as int) {
        Some(i) => Visit::U16(i as u16),
        None => visit_any(v),
    }
}

/// What a 32-bit unsigned field is handed: the integer that the value offers,
/// cut down to 32 bits, or else what any field is handed.
pub open spec fn visit_u32(v: Untyped) -> Visit {
    match unsigned_offer(v, u32::MAX as int) {
        Some(i) => Visit::U32(i as u32),
        None => visit_any(v),
    }
}

/// What a 64-bit unsigned field is handed: the integer that the value offers,
/// or else what any field is handed.
pub open spec fn visit_u64(v: Untyped) -> Visit {
    match unsigned_offer(v, u64::MAX as int) {
        Some(i) => Visit::U64(i),
        None => visit_any(v),
    }
}

/// What an optional field is handed: null makes it absent, any other value
/// makes it present and goes on into the wrapped type.
pub open spec fn visit_option(v: Untyped) -> Visit {
    if v is Null {
        Visit::Absent
    } else {
        Visit::Present(LooseValue(v))
    }
}

/// What an enumerated field is handed: a string names the variant, anything
/// else goes in as what it is.
pub open spec fn visit_enum(v: Untyped) -> Visit {
    match v {
        Untyped::String(s) => Visit::Variant(s),
        _ => visit_any(v),
    }
}

fn signed_source(v: &Untyped, lo: i64, hi: i64) -> (r: Option<i64>)
    ensures
        r == signed_offer(*v, lo as int, hi as int),
{
    match v {
        Untyped::String(s) => match parse_i64(s.as_str()) {
            Some(n) => if lo <= n && n <= hi {
                Some(n)
            } else {
                None
            },
            None => None,
        },
        Untyped::Number(n) => n.as_i64(),
        _ => None,
    }
}

fn unsigned_source(v: &Untyped, hi: u64) -> (r: Option<u64>)
    ensures
        r == unsigned_offer(*v, hi as int),
{
    match v {
        Untyped::String(s) => match parse_u64(s.as_str()) {
            Some(n) => if n <= hi {
                Some(n)
            } else {
                None
            },
            None => None,
        },
        Untyped::Number(n) => n.as_u64(),
        _ => None,
    }
}

impl LooseValue {
    /// Decides what a field without a particular shape is handed.
    pub fn deserialize_any(self) -> (r: Visit)
        ensures
            r == visit_any(self.0),
    {
        match self.0 {
            Untyped::Null => Visit::Unit,
            Untyped::Bool(b) => Visit::Bool(b),
            Untyped::Number(n) => match n.as_i64() {
                Some(i) => Visit::I64(i),
                None => match n {
                    Number::PosInt(u) => Visit::U64(u),
                    Number::NegInt(i) => Visit::I64(i),
                    Number::Float(t) => Visit::F64(Float::Text(t)),
                },
            },
            Untyped::String(s) => Visit::String(s),
            Untyped::Array(items) => Visit::Sequence(LooseSeqAccess { items, next: 0 }),
            Untyped::Object(o) => Visit::Mapping(
                LooseMapAccess { entries: o.entries, next: 0, value: None },
            ),
        }
    }

    /// Decides what an 8-bit signed field is handed: the integer that the
    /// value offers, cut down to 8 bits, or else what any field is handed.
    pub fn deserialize_i8(self) -> (r: Visit)
        ensures
            r == visit_i8(self.0),
    {
        match signed_source(&self.0, -128, 127) {
            Some(i) => Visit::I8(#[verifier::truncate] (i as i8)),
            None => self.deserialize_any(),
        }
    }

    /// Decides what a 16-bit signed field is handed: the integer that the
    /// value offers, cut down to 16 bits, or else what any field is handed.
    pub fn deserialize_i16(self) -> (r: Visit)
        ensures
            r == visit_i16(self.0),
    {
        match signed_source(&self.0, -32768, 32767) {
            Some(i) => Visit::I16(#[verifier::truncate] (i as i16)),
            None => self.deserialize_any(),
        }
    }

    /// Decides what a 32-bit signed field is handed: the integer that the
    /// value offers, cut down to 32 bits, or else what any field is handed.
    pub fn deserialize_i32(self) -> (r: Visit)
        ensures
            r == visit_i32(self.0),
    {
        match signed_source(&self.0, -2147483648, 2147483647) {
            Some(i) => Visit::I32(#[verifier::truncate] (i as i32)),
            None => self.deserialize_any(),
        }
    }

    /// Decides what a 64-bit signed field is handed: the integer that the
    /// value offers, or else what any field is handed.
    pub fn deserialize_i64(self) -> (r: Visit)
        ensures
            r == visit_i64(self.0),
    {
        match signed_source(&self.0, i64::MIN, i64::MAX) {
            Some(i) => Visit::I64(i),
            None => self.deserialize_any(),
        }
    }

    /// Decides what an 8-bit unsigned field is handed: the integer that the
    /// value offers, cut down to 8 bits, or else what any field is handed.
    pub fn deserialize_u8(self) -> (r: Visit)
        ensures
            r == visit_u8(self.0),
    {
        match unsigned_source(&self.0, 255) {
            Some(u) => Visit::U8(#[verifier::truncate] (u as u8)),
            None => self.deserialize_any(),
        }
    }

    /// Decides what a 16-bit unsigned field is handed: the integer that the
    /// value offers, cut down to 16 bits, or else what any field is handed.
    pub fn deserialize_u16(self) -> (r: Visit)
        ensures
            r == visit_u16(self.0),
    {
        match unsigned_source(&self.0, 65535) {
            Some(u) => Visit::U16(#[verifier::truncate] (u as u16)),
            None => self.deserialize_any(),
        }
    }

    /// Decides what a 32-bit unsigned field is handed: the integer that the
    /// value offers, cut down to 32 bits, or else what any field is handed.
    pub fn deserialize_u32(self) -> (r: Visit)
        ensures
            r == visit_u32(self.0),
    {
        match unsigned_source(&self.0, 4294967295) {
            Some(u) => Visit::U32(#[verifier::truncate] (u as u32)),
            None => self.deserialize_any(),
        }
    }

    /// Decides what a 64-bit unsigned field is handed: the integer that the
    /// value offers, or else what any field is handed.
    pub fn deserialize_u64(self) -> (r: Visit)
        ensures
            r == visit_u64(self.0),
    {
        match unsigned_source(&self.0, u64::MAX) {
            Some(u) => Visit::U64(u),
            None => self.deserialize_any(),
        }
    }

    fn float(self, single: bool) -> (r: Visit)
        ensures
            r == visit_float(self.0, single),
    {
        match self.0 {
            Untyped::String(s) => if single {
                Visit::ParseF32(s)
            } else {
                Visit::ParseF64(s)
            },
            Untyped::Number(n) => {
                let f = match n {
                    Number::PosInt(u) => Float::OfU64(u),
                    Number::NegInt(i) => Float::OfI64(i),
                    Number::Float(t) => Float::Text(t),
                };
                if single {
                    Visit::F32(f)
                } else {
                    Visit::F64(f)
                }
            },
            other => LooseValue(other).deserialize_any(),
        }
    }

    /// Decides what a single-precision floating field is handed.
    pub fn deserialize_f32(self) -> (r: Visit)
        ensures
            r == visit_float(self.0, true),
    {
        self.float(true)
    }

    /// Decides what a double-precision floating field is handed.
    pub fn deserialize_f64(self) -> (r: Visit)
        ensures
            r == visit_float(self.0, false),
    {
        self.float(false)
    }

    /// Decides what an optional field is handed: null makes it absent, any
    /// other value makes it present and goes on into the wrapped type.
    pub fn deserialize_option(self) -> (r: Visit)
        ensures
            r == visit_option(self.0),
    {
        match self.0 {
            Untyped::Null => Visit::Absent,
            other => Visit::Present(LooseValue(other)),
        }
    }

    /// Decides what an enumerated field is handed: a string names the
    /// variant, anything else goes in as what it is.
    pub fn deserialize_enum(self) -> (r: Visit)
        ensures
            r == visit_enum(self.0),
    {
        match self.0 {
            Untyped::String(s) => Visit::Variant(s),
            other => LooseValue(other).deserialize_any(),
        }
    }
}

impl View for LooseSeqAccess {
    type V = Seq<Untyped>;

    /// The elements still to be handed out, in order.
    open spec fn view(&self) -> Seq<Untyped> {
        if self.next <= self.items@.len() {
            self.items@.skip(self.next as int)
        } else {
            Seq::empty()
        }
    }
}

impl LooseSeqAccess {
    /// Hands out the next element, if one is left.
    pub fn next_element_seed(&mut self) -> (r: Option<LooseValue>)
        ensures
            match r {
                Some(element) => {
                    &&& old(self)@.len() > 0
                    &&& element.0 == old(self)@[0]
                    &&& final(self)@ == old(self)@.skip(1)
                },
                None => old(self)@.len() == 0 && *final(self) == *old(self),
            },
    {
        if self.next < self.items.len() {
            let mut element = Untyped::Null;
            core::mem::swap(&mut self.items[self.next], &mut element);
            self.next += 1;
            assert(self@ =~= old(self)@.skip(1));
            Some(LooseValue(element))
        } else {
            None
        }
    }
}

/// What is left of a mapping that is being handed out.
pub struct MapAccessView {
    /// The entries still to be handed out, in order.
    pub remaining: Seq<(String, Untyped)>,
    /// The value of the entry whose key was handed out last, until it is
    /// handed out itself.
    pub value: Option<Untyped>,
}

impl View for LooseMapAccess {
    type V = MapAccessView;

    open spec fn view(&self) -> MapAccessView {
        MapAccessView {
            remaining: if self.next <= self.entries@.len() {
                self.entries@.skip(self.next as int)
            } else {
                Seq::empty()
            },
            value: self.value,
        }
    }
}

impl LooseMapAccess {
    /// Hands out the key of the next entry, if one is left, and keeps the
    /// entry's value for `next_value_seed`.
    pub fn next_key_seed(&mut self) -> (r: Option<String>)
        ensures
            match r {
                Some(key) => {
                    &&& old(self)@.remaining.len() > 0
                    &&& key == old(self)@.remaining[0].0
                    &&& final(self)@ == (MapAccessView {
                        remaining: old(self)@.remaining.skip(1),
                        value: Some(old(self)@.remaining[0].1),
                    })
                },
                None => old(self)@.remaining.len() == 0 && *final(self) == *old(self),
            },
    {
        if self.next < self.entries.len() {
            let mut entry = (String::new(), Untyped::Null);
            core::mem::swap(&mut self.entries[self.next], &mut entry);
            self.next += 1;
            self.value = Some(entry.1);
            assert(self@.remaining =~= old(self)@.remaining.skip(1));
            Some(entry.0)
        } else {
            None
        }
    }

    /// Hands out the value that was kept when a key was handed out. Where no
    /// value is kept the error says that the value is missing.
    pub fn next_value_seed(&mut self) -> (r: Result<LooseValue, DeserError>)
        ensures
            final(self)@ == (MapAccessView { remaining: old(self)@.remaining, value: None }),
            match r {
                Ok(value) => old(self)@.value == Some(value.0),
                Err(e) => old(self)@.value is None && e.message() == "value is missing"@,
            },
    {
        let mut kept: Option<Untyped> = None;
        core::mem::swap(&mut self.value, &mut kept);
        match kept {
            Some(value) => Ok(LooseValue(value)),
            None => Err(DeserError::custom("value is missing")),
        }
    }
}

/// Whether a column came back as the text `t`: the read as an integer
/// failed, and the read as text gave `t`.
pub open spec fn came_back_as_text(c: Column, t: Seq<char>) -> bool {
    c.as_integer is None && c.as_text is Some && c.as_text->0@ == t
}

/// A string that is written and comes back as the text that was bound for it
/// reaches its field as that string: a field without a particular shape is
/// handed the string, an optional field is handed it as present, and an
/// enumerated field is handed it as the name of the variant.
pub proof fn lemma_string_reads_back(s: String, c: Column)
    requires
        came_back_as_text(c, bound_text(Untyped::String(s))),
    ensures
        column_value(c) is String,
        column_value(c)->String_0@ == s@,
        visit_any(column_value(c)) == Visit::String(column_value(c)->String_0),
        visit_enum(column_value(c)) == Visit::Variant(column_value(c)->String_0),
        visit_option(column_value(c)) == Visit::Present(LooseValue(column_value(c))),
{
}

/// A signed integer that is written and comes back as the text that was
/// bound for it reaches every signed field whose range holds it as itself.
pub proof fn lemma_signed_reads_back(i: i64, c: Column)
    requires
        came_back_as_text(c, bound_text(Untyped::Number(number_of(i)))),
    ensures
        visit_i64(column_value(c)) == Visit::I64(i),
        i32::MIN <= i <= i32::MAX ==> visit_i32(column_value(c)) == Visit::I32(i as i32),
        i16::MIN <= i <= i16::MAX ==> visit_i16(column_value(c)) == Visit::I16(i as i16),
        i8::MIN <= i <= i8::MAX ==> visit_i8(column_value(c)) == Visit::I8(i as i8),
{
    lemma_parse_signed_decimal(i as int);
    assert(number_of(i).text() == signed_decimal(i as int));
}

/// An unsigned integer that is written and comes back as the text that was
/// bound for it reaches every unsigned field whose range holds it as itself.
pub proof fn lemma_unsigned_reads_back(u: u64, c: Column)
    requires
        came_back_as_text(c, bound_text(Untyped::Number(Number::PosInt(u)))),
    ensures
        visit_u64(column_value(c)) == Visit::U64(u),
        u <= u32::MAX ==> visit_u32(column_value(c)) == Visit::U32(u as u32),
        u <= u16::MAX ==> visit_u16(column_value(c)) == Visit::U16(u as u16),
        u <= u8::MAX ==> visit_u8(column_value(c)) == Visit::U8(u as u8),
{
    lemma_parse_signed_decimal(u as int);
}

/// An integer that comes back as an integer reaches a signed field as
/// itself, cut down to the field's width, and where it is not negative an
/// unsigned field likewise.
pub proof fn lemma_integer_column_reads_back(i: i64, c: Column)
    requires
        c.as_integer == Some(i),
    ensures
        visit_i64(column_value(c)) == Visit::I64(i),
        visit_i32(column_value(c)) == Visit::I32(i as i32),
        visit_i16(column_value(c)) == Visit::I16(i as i16),
        visit_i8(column_value(c)) == Visit::I8(i as i8),
        i >= 0 ==> visit_u64(column_value(c)) == Visit::U64(i as u64),
        i >= 0 ==> visit_u32(column_value(c)) == Visit::U32(i as u64 as u32),
{
}

/// A record that is written and comes back column by column as the texts
/// that were bound for it is rebuilt field by field: where no field is named
/// twice, each field of the rebuilt record is the string with the text that
/// was bound for that field of the written record.
pub proof fn lemma_written_record_reads_back(
    fields: Seq<Seq<char>>,
    written: Object,
    row: Seq<Column>,
    i: int,
)
    requires
        fields.no_duplicates(),
        row.len() == fields.len(),
        forall|j: int|
            0 <= j < fields.len() ==> came_back_as_text(
                #[trigger] row[j],
                record_texts(fields, written)[j],
            ),
        0 <= i < fields.len(),
    ensures
        row_lookup(fields, row, fields[i]) is Some,
        row_lookup(fields, row, fields[i])->0 is String,
        row_lookup(fields, row, fields[i])->0->String_0@ == bound_text(
            written.value_of(fields[i])->0,
        ),
{
    lemma_row_lookup_at(fields, row, i);
    assert(came_back_as_text(row[i], record_texts(fields, written)[i]));
}

/// A signed integer field of a record that is written and comes back column
/// by column as the texts that were bound for it is rebuilt as that integer,
/// where no field is named twice.
pub proof fn lemma_written_integer_reads_back(
    fields: Seq<Seq<char>>,
    written: Object,
    row: Seq<Column>,
    i: int,
    n: i64,
)
    requires
        fields.no_duplicates(),
        row.len() == fields.len(),
        forall|j: int|
            0 <= j < fields.len() ==> came_back_as_text(
                #[trigger] row[j],
                record_texts(fields, written)[j],
            ),
        0 <= i < fields.len(),
        written.value_of(fields[i]) == Some(Untyped::Number(number_of(n))),
    ensures
        row_lookup(fields, row, fields[i]) is Some,
        visit_i64(row_lookup(fields, row, fields[i])->0) == Visit::I64(n),
        i32::MIN <= n <= i32::MAX ==> visit_i32(row_lookup(fields, row, fields[i])->0)
            == Visit::I32(n as i32),
{
    lemma_row_lookup_at(fields, row, i);
    assert(came_back_as_text(row[i], record_texts(fields, written)[i]));
    lemma_signed_reads_back(n, row[i]);
}

/// A record of the type `T` that is inserted and comes back column by
/// column as the texts that its statement bound is rebuilt field by field:
/// where `T` declares no field twice, each field of the rebuilt record is
/// the string with the text that was bound for that field.
pub proof fn lemma_inserted_record_reads_back<T: Model>(
    written: Untyped,
    statement: Statement,
    row: Seq<Column>,
    i: int,
)
    requires
        T::declared().no_duplicates(),
        insert_outcome(T::table(), T::declared(), written, Ok(statement)),
        row.len() == T::declared().len(),
        forall|j: int|
            0 <= j < row.len() ==> (#[trigger] statement@.params[j]) is Text && came_back_as_text(
                row[j],
                statement@.params[j]->Text_0,
            ),
        0 <= i < T::declared().len(),
    ensures
        row_lookup(T::declared(), row, T::declared()[i]) is Some,
        row_lookup(T::declared(), row, T::declared()[i])->0 is String,
        row_lookup(T::declared(), row, T::declared()[i])->0->String_0@ == bound_text(
            written->Object_0.value_of(T::declared()[i])->0,
        ),
{
    let fields = T::declared();
    let record = written->Object_0;
    assert forall|j: int| 0 <= j < fields.len() implies came_back_as_text(
        #[trigger] row[j],
        record_texts(fields, record)[j],
    ) by {
        assert(statement@.params[j] == ParamView::Text(record_texts(fields, record)[j]));
    }
    lemma_written_record_reads_back(fields, record, row, i);
}

/// What does not survive being written as text: a boolean and a null come
/// back as strings, so a field without a particular shape is handed a
/// string, and an optional field that was absent is handed a present one.
pub proof fn lemma_boolean_and_null_read_back_as_strings(b: bool, c: Column, d: Column)
    requires
        came_back_as_text(c, bound_text(Untyped::Bool(b))),
        came_back_as_text(d, bound_text(Untyped::Null)),
    ensures
        visit_any(column_value(c)) is String,
        visit_any(column_value(d)) is String,
        visit_option(column_value(d)) is Present,
{
}

} // verus!
