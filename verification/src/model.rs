//! The type descriptor: what a record type tells the crate about its table.

use crate::text::texts;
use vstd::prelude::*;
use vstd::string::*;

verus! {

/// The capability of a persistable record type: its table, its fields in
/// column order, and the field that is its primary key.
///
/// The order of `fields` is the order of the columns in every statement and
/// the order in which the values of a row are matched to fields.
pub trait Model: Sized {
    /// The table name that the record type declares: the one text that
    /// `table_name` gives. A record type written in verified code says here
    /// what that text is; of any other record type it is taken on trust that
    /// `table_name` gives one text only.
    closed spec fn table() -> Seq<char> {
        arbitrary::<(Self, Seq<char>)>().1
    }

    /// The field names that the record type declares, in column order: the
    /// one list that `fields` gives. A record type written in verified code
    /// says here what that list is; of any other record type it is taken on
    /// trust that `fields` gives one list only.
    closed spec fn declared() -> Seq<Seq<char>> {
        arbitrary::<(Self, Seq<Seq<char>>)>().1
    }

    /// The name of the table.
    fn table_name() -> (r: &'static str)
        ensures
            r@ == Self::table(),
    ;

    /// The names of the fields, in column order.
    fn fields() -> (r: &'static [&'static str])
        ensures
            slice_texts(r@) == Self::declared(),
    ;

    /// The name of the primary-key field: `id`, unless the record type says
    /// otherwise.
    fn primary_key() -> (r: &'static str)
        default_ensures
            r@ == "id"@,
    {
        "id"
    }
}

/// The character sequences held by a sequence of string slices.
pub open spec fn slice_texts(v: Seq<&str>) -> Seq<Seq<char>> {
    Seq::new(v.len(), |i: int| v[i]@)
}

/// What a type descriptor says: the table name, the field names in column
/// order, and the primary-key name.
pub struct SchemaView {
    pub table: Seq<char>,
    pub columns: Seq<Seq<char>>,
    pub key: Seq<char>,
}

impl SchemaView {
    /// What a descriptor owes: at least one field, no field twice, and the
    /// primary key among the fields.
    pub open spec fn wf(self) -> bool {
        &&& self.columns.len() > 0
        &&& self.columns.no_duplicates()
        &&& self.columns.contains(self.key)
    }
}

/// What the record type `T` declares, with `key` as its primary key.
pub open spec fn declared_with<T: Model>(key: Seq<char>) -> SchemaView {
    SchemaView { table: T::table(), columns: T::declared(), key }
}

/// A type descriptor as a value: table name, field names in column order and
/// primary-key name.
#[derive(Clone, Debug, PartialEq)]
pub struct Schema {
    pub table_name: String,
    pub fields: Vec<String>,
    pub primary_key: String,
}

impl View for Schema {
    type V = SchemaView;

    open spec fn view(&self) -> SchemaView {
        SchemaView { table: self.table_name@, columns: texts(self.fields@), key: self.primary_key@ }
    }
}

impl Schema {
    /// The table name.
    pub open spec fn table(self) -> Seq<char> {
        self.table_name@
    }

    /// The field names, in column order.
    pub open spec fn columns(self) -> Seq<Seq<char>> {
        texts(self.fields@)
    }

    /// The primary-key name.
    pub open spec fn key(self) -> Seq<char> {
        self.primary_key@
    }

    /// What a descriptor owes: at least one field, no field twice, and the
    /// primary key among the fields.
    pub open spec fn wf(self) -> bool {
        self@.wf()
    }

    /// The descriptor with the given names.
    pub fn new(table_name: &str, fields: &[&str], primary_key: &str) -> (r: Schema)
        ensures
            r@ == (SchemaView {
                table: table_name@,
                columns: slice_texts(fields@),
                key: primary_key@,
            }),
    {
        let mut owned: Vec<String> = Vec::new();
        let mut i: usize = 0;
        while i < fields.len()
            invariant
                i <= fields.len(),
                owned@.len() == i,
                forall|j: int| 0 <= j < i ==> (#[trigger] owned@[j])@ == fields@[j]@,
            decreases fields.len() - i,
        {
            owned.push(String::from_str(fields[i]));
            i += 1;
        }
        let r = Schema {
            table_name: String::from_str(table_name),
            fields: owned,
            primary_key: String::from_str(primary_key),
        };
        assert(r.columns() =~= slice_texts(fields@));
        r
    }

    /// The descriptor that the record type `T` declares: its table, its
    /// fields in column order, and the primary key that `T` gives.
    pub fn of<T: Model>() -> (r: Schema)
        ensures
            r@ == declared_with::<T>(r@.key),
    {
        Schema::new(T::table_name(), T::fields(), T::primary_key())
    }

    /// Whether the descriptor is what a descriptor owes.
    pub fn is_valid(&self) -> (r: bool)
        ensures
            r == self.wf(),
    {
        let n = self.fields.len();
        if n == 0 {
            return false;
        }
        let mut has_key = false;
        let mut i: usize = 0;
        while i < n
            invariant
                n == self.fields.len(),
                i <= n,
                self.columns().take(i as int).no_duplicates(),
                has_key == self.columns().take(i as int).contains(self.key()),
            decreases n - i,
        {
            let ghost seen = self.columns().take(i as int);
            let ghost next = self.columns().take(i + 1);
            assert(next == seen.push(self.fields@[i as int]@));
            let mut j: usize = 0;
            while j < i
                invariant
                    n == self.fields.len(),
                    i < n,
                    j <= i,
                    forall|k: int| 0 <= k < j ==> self.columns()[k] != self.columns()[i as int],
                decreases i - j,
            {
                if self.fields[j].eq(&self.fields[i]) {
                    proof {
                        let all = self.columns();
                        assert(all[j as int] == all[i as int]);
                    }
                    return false;
                }
                j += 1;
            }
            if self.fields[i].eq(&self.primary_key) {
                has_key = true;
            }
            proof {
                assert forall|a: int, b: int| 0 <= a < next.len() && 0 <= b < next.len() && a
                    != b implies next[a] != next[b] by {
                    if a < i && b < i {
                        assert(seen[a] != seen[b]);
                    }
                }
                if seen.contains(self.key()) {
                    let w = choose|w: int| 0 <= w < seen.len() && seen[w] == self.key();
                    assert(next[w] == self.key());
                }
                if self.fields@[i as int]@ == self.key() {
                    assert(next[i as int] == self.key());
                }
            }
            i += 1;
        }
        assert(self.columns().take(n as int) == self.columns());
        has_key
    }
}

} // verus!
