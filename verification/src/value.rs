//! The untyped value: the interchange form between typed records and rows.
//!
//! A record is turned into an object of untyped values before it is written,
//! and a row is turned into one before a record is rebuilt from it.

use crate::text::{decimal, i64_text, signed_decimal, u64_text};
use vstd::prelude::*;
use vstd::string::*;
use vstd::utf8::{encode_utf8, encode_utf8_decode_utf8};

verus! {

/// A number of the untyped value.
///
/// A floating number is carried as its decimal text: the crate never computes
/// with it, it only hands the text on.
#[derive(Clone, Debug, PartialEq)]
pub enum Number {
    /// A non-negative integer.
    PosInt(u64),
    /// A negative integer. `from_i64` keeps non-negative integers out of it.
    NegInt(i64),
    /// A finite floating number, by its decimal text.
    Float(String),
}

impl Number {
    /// The number as a signed 64-bit integer, where it is an integer that fits.
    pub open spec fn i64_value(self) -> Option<i64> {
        match self {
            Number::PosInt(u) => if u <= i64::MAX {
                Some(u as i64)
            } else {
                None
            },
            Number::NegInt(i) => Some(i),
            Number::Float(_) => None,
        }
    }

    /// The number as an unsigned 64-bit integer, where it is held as one.
    pub open spec fn u64_value(self) -> Option<u64> {
        match self {
            Number::PosInt(u) => Some(u),
            Number::NegInt(_) => None,
            Number::Float(_) => None,
        }
    }

    /// The textual form of the number: the decimal numeral of an integer, the
    /// carried text of a floating number.
    pub open spec fn text(self) -> Seq<char> {
        match self {
            Number::PosInt(u) => decimal(u as nat),
            Number::NegInt(i) => signed_decimal(i as int),
            Number::Float(t) => t@,
        }
    }

    /// The number that holds the integer `i`.
    pub fn from_i64(i: i64) -> (r: Number)
        ensures
            r.i64_value() == Some(i),
            r.text() == signed_decimal(i as int),
            i >= 0 ==> r == Number::PosInt(i as u64),
            i < 0 ==> r == Number::NegInt(i),
    {
        if i < 0 {
            Number::NegInt(i)
        } else {
            Number::PosInt(i as u64)
        }
    }

    /// The number that holds the integer `u`.
    pub fn from_u64(u: u64) -> (r: Number)
        ensures
            r == Number::PosInt(u),
    {
        Number::PosInt(u)
    }

    /// The number as a signed 64-bit integer, where it is an integer that fits.
    pub fn as_i64(&self) -> (r: Option<i64>)
        ensures
            r == self.i64_value(),
    {
        match self {
            Number::PosInt(u) => if *u <= 0x7fff_ffff_ffff_ffffu64 {
                Some(*u as i64)
            } else {
                None
            },
            Number::NegInt(i) => Some(*i),
            Number::Float(_) => None,
        }
    }

    /// The number as an unsigned 64-bit integer, where it is held as one.
    pub fn as_u64(&self) -> (r: Option<u64>)
        ensures
            r == self.u64_value(),
    {
        match self {
            Number::PosInt(u) => Some(*u),
            Number::NegInt(_) => None,
            Number::Float(_) => None,
        }
    }

    /// Whether the number is a floating one.
    pub fn is_f64(&self) -> (r: bool)
        ensures
            r == (self is Float),
    {
        match self {
            Number::Float(_) => true,
            _ => false,
        }
    }

    /// Renders the number in its textual form.
    pub fn to_string(&self) -> (r: String)
        ensures
            r@ == self.text(),
    {
        match self {
            Number::PosInt(u) => u64_text(*u),
            Number::NegInt(i) => i64_text(*i),
            Number::Float(t) => t.clone(),
        }
    }
}

/// The untyped value: null, a boolean, a number, a string, a sequence of
/// untyped values, or a mapping from strings to untyped values.
#[derive(Debug, PartialEq)]
pub enum Untyped {
    Null,
    Bool(bool),
    Number(Number),
    String(String),
    Array(Vec<Untyped>),
    Object(Object),
}

/// A mapping from strings to untyped values, kept as a list of entries.
///
/// The last entry with a given key is the one that counts. `insert` replaces
/// the value of a key that is already there and puts a new key before the
/// first key that comes after it, so an object built with it holds every key
/// once, in the order of the keys.
#[derive(Debug, PartialEq)]
pub struct Object {
    pub entries: Vec<(String, Untyped)>,
}

/// The value that `entries` holds for `key`: that of the last entry with this
/// key, if there is one.
pub open spec fn lookup(entries: Seq<(String, Untyped)>, key: Seq<char>) -> Option<Untyped>
    decreases entries.len(),
{
    if entries.len() == 0 {
        None
    } else if entries.last().0@ == key {
        Some(entries.last().1)
    } else {
        lookup(entries.drop_last(), key)
    }
}

/// The index of the last entry of `entries` with `key`, if there is one.
pub open spec fn position(entries: Seq<(String, Untyped)>, key: Seq<char>) -> Option<int>
    decreases entries.len(),
{
    if entries.len() == 0 {
        None
    } else if entries.last().0@ == key {
        Some(entries.len() - 1)
    } else {
        position(entries.drop_last(), key)
    }
}

/// `position` finds an entry with the key, the last such entry, and `lookup`
/// gives that entry's value.
pub proof fn lemma_position(entries: Seq<(String, Untyped)>, key: Seq<char>)
    ensures
        match position(entries, key) {
            Some(i) => {
                &&& 0 <= i < entries.len()
                &&& entries[i].0@ == key
                &&& lookup(entries, key) == Some(entries[i].1)
                &&& forall|j: int| i < j < entries.len() ==> (#[trigger] entries[j]).0@ != key
            },
            None => {
                &&& lookup(entries, key) is None
                &&& forall|j: int| 0 <= j < entries.len() ==> (#[trigger] entries[j]).0@ != key
            },
        },
    decreases entries.len(),
{
    if entries.len() > 0 && entries.last().0@ != key {
        let rest = entries.drop_last();
        lemma_position(rest, key);
        match position(rest, key) {
            Some(i) => {
                assert(entries[i] == rest[i]);
                assert forall|j: int| i < j < entries.len() implies (#[trigger] entries[j]).0@
                    != key by {
                    if j < rest.len() {
                        assert(entries[j] == rest[j]);
                    }
                }
            },
            None => {
                assert forall|j: int| 0 <= j < entries.len() implies (#[trigger] entries[j]).0@
                    != key by {
                    if j < rest.len() {
                        assert(entries[j] == rest[j]);
                    }
                }
            },
        }
    }
}

/// Replacing the value of the entry at `i` changes what is found under that
/// entry's key, where no later entry has the key, and nothing else.
pub proof fn lemma_lookup_update(
    entries: Seq<(String, Untyped)>,
    i: int,
    key: String,
    value: Untyped,
    other: Seq<char>,
)
    requires
        0 <= i < entries.len(),
        entries[i].0@ == key@,
        forall|j: int| i < j < entries.len() ==> (#[trigger] entries[j]).0@ != key@,
    ensures
        lookup(entries.update(i, (key, value)), other) == if other == key@ {
            Some(value)
        } else {
            lookup(entries, other)
        },
    decreases entries.len(),
{
    let updated = entries.update(i, (key, value));
    if i == entries.len() - 1 {
        assert(updated.drop_last() == entries.drop_last());
    } else {
        let rest = entries.drop_last();
        assert(updated.drop_last() == rest.update(i, (key, value)));
        assert(updated.last() == entries.last());
        assert forall|j: int| i < j < rest.len() implies (#[trigger] rest[j]).0@ != key@ by {
            assert(rest[j] == entries[j]);
        }
        assert(rest[i] == entries[i]);
        lemma_lookup_update(rest, i, key, value, other);
    }
}

/// The order of byte strings: byte by byte, the shorter first where one
/// begins the other.
pub open spec fn bytes_less(a: Seq<u8>, b: Seq<u8>) -> bool
    decreases a.len(),
{
    if b.len() == 0 {
        false
    } else if a.len() == 0 {
        true
    } else if a[0] != b[0] {
        a[0] < b[0]
    } else {
        bytes_less(a.skip(1), b.skip(1))
    }
}

/// The order of keys: that of their UTF-8 bytes.
pub open spec fn key_before(a: Seq<char>, b: Seq<char>) -> bool {
    bytes_less(encode_utf8(a), encode_utf8(b))
}

/// No byte string comes before itself.
pub proof fn lemma_bytes_less_irreflexive(a: Seq<u8>)
    ensures
        !bytes_less(a, a),
    decreases a.len(),
{
    if a.len() > 0 {
        lemma_bytes_less_irreflexive(a.skip(1));
    }
}

/// Of two byte strings one comes before the other, or they are the same.
pub proof fn lemma_bytes_less_total(a: Seq<u8>, b: Seq<u8>)
    ensures
        bytes_less(a, b) || bytes_less(b, a) || a == b,
    decreases a.len(),
{
    if a.len() == 0 || b.len() == 0 {
        if a.len() == 0 && b.len() == 0 {
            assert(a =~= b);
        }
    } else if a[0] == b[0] {
        lemma_bytes_less_total(a.skip(1), b.skip(1));
        if a.skip(1) == b.skip(1) {
            assert forall|i: int| 0 <= i < a.len() implies a[i] == b[i] by {
                if i > 0 {
                    assert(a.skip(1)[i - 1] == b.skip(1)[i - 1]);
                }
            }
            assert(a.len() == a.skip(1).len() + 1);
            assert(b.len() == b.skip(1).len() + 1);
            assert(a =~= b);
        }
    }
}

/// What comes before something that comes before a third comes before the
/// third.
pub proof fn lemma_bytes_less_transitive(a: Seq<u8>, b: Seq<u8>, c: Seq<u8>)
    requires
        bytes_less(a, b),
        bytes_less(b, c),
    ensures
        bytes_less(a, c),
    decreases a.len(),
{
    if a.len() > 0 && a[0] == b[0] && b[0] == c[0] {
        lemma_bytes_less_transitive(a.skip(1), b.skip(1), c.skip(1));
    }
}

/// Of two keys one comes before the other, or they are the same key.
pub proof fn lemma_key_before_total(a: Seq<char>, b: Seq<char>)
    ensures
        key_before(a, b) || key_before(b, a) || a == b,
        !key_before(a, a),
{
    lemma_bytes_less_total(encode_utf8(a), encode_utf8(b));
    lemma_bytes_less_irreflexive(encode_utf8(a));
    encode_utf8_decode_utf8(a);
    encode_utf8_decode_utf8(b);
}

/// Whether the key `a` comes before the key `b`.
pub fn before(a: &str, b: &str) -> (r: bool)
    ensures
        r == key_before(a@, b@),
{
    let x = a.as_bytes();
    let y = b.as_bytes();
    let mut i: usize = 0;
    assert(x@.skip(0) == x@ && y@.skip(0) == y@);
    while i < x.len() && i < y.len()
        invariant
            x@ == encode_utf8(a@),
            y@ == encode_utf8(b@),
            i <= x@.len(),
            i <= y@.len(),
            bytes_less(x@, y@) == bytes_less(x@.skip(i as int), y@.skip(i as int)),
        decreases x@.len() - i,
    {
        let ghost p = x@.skip(i as int);
        let ghost q = y@.skip(i as int);
        assert(p[0] == x@[i as int] && q[0] == y@[i as int]);
        assert(p.skip(1) == x@.skip(i + 1));
        assert(q.skip(1) == y@.skip(i + 1));
        if x[i] != y[i] {
            return x[i] < y[i];
        }
        i += 1;
    }
    assert(x@.skip(i as int).len() == x@.len() - i);
    assert(y@.skip(i as int).len() == y@.len() - i);
    i < y.len()
}

/// Where a new key goes among `entries`: before the first entry whose key
/// comes after it, or behind them all.
pub open spec fn slot(entries: Seq<(String, Untyped)>, key: Seq<char>) -> int
    decreases entries.len(),
{
    if entries.len() == 0 {
        0
    } else if key_before(key, entries[0].0@) {
        0
    } else {
        1 + slot(entries.skip(1), key)
    }
}

/// The slot of a key lies among the entries; no entry before it has a key
/// that comes after the new key, and the entry at it has one.
pub proof fn lemma_slot(entries: Seq<(String, Untyped)>, key: Seq<char>)
    ensures
        0 <= slot(entries, key) <= entries.len(),
        forall|i: int| 0 <= i < slot(entries, key) ==> !key_before(key, (#[trigger] entries[i]).0@),
        slot(entries, key) < entries.len() ==> key_before(key, entries[slot(entries, key)].0@),
    decreases entries.len(),
{
    if entries.len() > 0 && !key_before(key, entries[0].0@) {
        let rest = entries.skip(1);
        lemma_slot(rest, key);
        assert forall|i: int| 0 <= i < slot(entries, key) implies !key_before(
            key,
            (#[trigger] entries[i]).0@,
        ) by {
            if i > 0 {
                assert(entries[i] == rest[i - 1]);
            }
        }
        if slot(entries, key) < entries.len() {
            assert(entries[slot(entries, key)] == rest[slot(rest, key)]);
        }
    }
}

/// The entries after `value` is set for `key`: the last entry with the key
/// gets the value, or else a new entry is made at the slot of the key.
pub open spec fn inserted(entries: Seq<(String, Untyped)>, key: String, value: Untyped) -> Seq<
    (String, Untyped),
> {
    match position(entries, key@) {
        Some(i) => entries.update(i, (key, value)),
        None => entries.insert(slot(entries, key@), (key, value)),
    }
}

/// Putting in an entry with a key that no entry has changes what is found
/// under that key, and nothing else.
pub proof fn lemma_lookup_insert(
    entries: Seq<(String, Untyped)>,
    p: int,
    key: String,
    value: Untyped,
    other: Seq<char>,
)
    requires
        0 <= p <= entries.len(),
        forall|j: int| 0 <= j < entries.len() ==> (#[trigger] entries[j]).0@ != key@,
    ensures
        lookup(entries.insert(p, (key, value)), other) == if other == key@ {
            Some(value)
        } else {
            lookup(entries, other)
        },
    decreases entries.len(),
{
    let grown = entries.insert(p, (key, value));
    if p == entries.len() {
        assert(grown =~= entries.push((key, value)));
        assert(grown.drop_last() =~= entries);
    } else {
        let rest = entries.drop_last();
        assert(grown.drop_last() =~= rest.insert(p, (key, value)));
        assert(grown.last() == entries.last());
        assert(entries[entries.len() - 1].0@ != key@);
        assert forall|j: int| 0 <= j < rest.len() implies (#[trigger] rest[j]).0@ != key@ by {
            assert(rest[j] == entries[j]);
        }
        lemma_lookup_insert(rest, p, key, value, other);
    }
}

/// After a value is set for a key, that value is found under the key, and
/// under every other key what was found before.
pub proof fn lemma_inserted(
    entries: Seq<(String, Untyped)>,
    key: String,
    value: Untyped,
    other: Seq<char>,
)
    ensures
        lookup(inserted(entries, key, value), other) == if other == key@ {
            Some(value)
        } else {
            lookup(entries, other)
        },
{
    lemma_position(entries, key@);
    match position(entries, key@) {
        Some(i) => {
            lemma_lookup_update(entries, i, key, value, other);
        },
        None => {
            lemma_slot(entries, key@);
            lemma_lookup_insert(entries, slot(entries, key@), key, value, other);
        },
    }
}

/// Whether the keys of the entries stand in order, each before the next.
pub open spec fn in_key_order(entries: Seq<(String, Untyped)>) -> bool {
    forall|i: int, j: int|
        0 <= i < j < entries.len() ==> key_before(
            (#[trigger] entries[i]).0@,
            (#[trigger] entries[j]).0@,
        )
}

/// Setting a value for a key keeps the keys in order.
pub proof fn lemma_inserted_in_key_order(
    entries: Seq<(String, Untyped)>,
    key: String,
    value: Untyped,
)
    requires
        in_key_order(entries),
    ensures
        in_key_order(inserted(entries, key, value)),
{
    lemma_position(entries, key@);
    let after = inserted(entries, key, value);
    match position(entries, key@) {
        Some(p) => {
            assert forall|i: int, j: int| 0 <= i < j < after.len() implies key_before(
                (#[trigger] after[i]).0@,
                (#[trigger] after[j]).0@,
            ) by {
                assert(after[i].0@ == entries[i].0@);
                assert(after[j].0@ == entries[j].0@);
            }
        },
        None => {
            let p = slot(entries, key@);
            lemma_slot(entries, key@);
            assert(after.len() == entries.len() + 1);
            assert forall|i: int| 0 <= i < p implies key_before((#[trigger] entries[i]).0@, key@) by {
                lemma_key_before_total(entries[i].0@, key@);
            }
            assert forall|i: int| p <= i < entries.len() implies key_before(
                key@,
                (#[trigger] entries[i]).0@,
            ) by {
                if i > p {
                    lemma_bytes_less_transitive(
                        encode_utf8(key@),
                        encode_utf8(entries[p].0@),
                        encode_utf8(entries[i].0@),
                    );
                }
            }
            assert forall|i: int, j: int| 0 <= i < j < after.len() implies key_before(
                (#[trigger] after[i]).0@,
                (#[trigger] after[j]).0@,
            ) by {
                let a = if i < p { i } else { i - 1 };
                let b = if j < p { j } else { j - 1 };
                if i != p {
                    assert(after[i] == entries[a]);
                }
                if j != p {
                    assert(after[j] == entries[b]);
                }
                if i == p {
                    assert(after[i] == (key, value));
                }
                if j == p {
                    assert(after[j] == (key, value));
                }
            }
        },
    }
}

impl Object {
    /// The value held for `key`, if any.
    pub open spec fn value_of(self, key: Seq<char>) -> Option<Untyped> {
        lookup(self.entries@, key)
    }

    /// The object without entries.
    pub fn new() -> (r: Object)
        ensures
            r.entries@.len() == 0,
            forall|k: Seq<char>| r.value_of(k) is None,
    {
        Object { entries: Vec::new() }
    }

    /// The number of entries.
    pub fn len(&self) -> (r: usize)
        ensures
            r == self.entries@.len(),
    {
        self.entries.len()
    }

    fn find(&self, key: &str) -> (r: Option<usize>)
        ensures
            match r {
                Some(i) => position(self.entries@, key@) == Some(i as int),
                None => position(self.entries@, key@) is None,
            },
    {
        let wanted = String::from_str(key);
        let mut i: usize = self.entries.len();
        assert(self.entries@.take(i as int) == self.entries@);
        while i > 0
            invariant
                i <= self.entries.len(),
                wanted@ == key@,
                position(self.entries@, key@) == position(self.entries@.take(i as int), key@),
            decreases i,
        {
            let ghost prefix = self.entries@.take(i as int);
            assert(prefix.last() == self.entries@[i - 1]);
            assert(prefix.drop_last() == self.entries@.take(i - 1));
            if self.entries[i - 1].0.eq(&wanted) {
                return Some(i - 1);
            }
            i -= 1;
        }
        assert(self.entries@.take(0).len() == 0);
        None
    }

    /// The value held for `key`, if any.
    pub fn get(&self, key: &str) -> (r: Option<&Untyped>)
        ensures
            match r {
                Some(v) => self.value_of(key@) == Some(*v),
                None => self.value_of(key@) is None,
            },
    {
        proof {
            lemma_position(self.entries@, key@);
        }
        match self.find(key) {
            Some(i) => Some(&self.entries[i].1),
            None => None,
        }
    }

    /// Whether a value is held for `key`.
    pub fn contains_key(&self, key: &str) -> (r: bool)
        ensures
            r == self.value_of(key@) is Some,
    {
        self.get(key).is_some()
    }

    fn find_slot(&self, key: &str) -> (r: usize)
        ensures
            r == slot(self.entries@, key@),
            r <= self.entries@.len(),
    {
        let mut i: usize = 0;
        proof {
            lemma_slot(self.entries@, key@);
            assert(self.entries@.skip(0) == self.entries@);
        }
        while i < self.entries.len()
            invariant
                i <= self.entries.len(),
                slot(self.entries@, key@) == i + slot(self.entries@.skip(i as int), key@),
            decreases self.entries.len() - i,
        {
            let ghost rest = self.entries@.skip(i as int);
            assert(rest[0] == self.entries@[i as int]);
            assert(rest.skip(1) == self.entries@.skip(i + 1));
            if before(key, self.entries[i].0.as_str()) {
                return i;
            }
            i += 1;
        }
        assert(self.entries@.skip(i as int).len() == 0);
        i
    }

    /// Sets the value held for `key`: in place where the key is already
    /// there, and where it is not, as a new entry before the first entry
    /// whose key comes after it.
    pub fn insert(&mut self, key: String, value: Untyped)
        ensures
            final(self).entries@ == inserted(old(self).entries@, key, value),
            forall|k: Seq<char>|
                final(self).value_of(k) == if k == key@ {
                    Some(value)
                } else {
                    old(self).value_of(k)
                },
            in_key_order(old(self).entries@) ==> in_key_order(final(self).entries@),
    {
        let ghost before_entries = self.entries@;
        proof {
            assert forall|k: Seq<char>|
                lookup(inserted(before_entries, key, value), k) == if k == key@ {
                    Some(value)
                } else {
                    lookup(before_entries, k)
                } by {
                lemma_inserted(before_entries, key, value, k);
            }
            if in_key_order(before_entries) {
                lemma_inserted_in_key_order(before_entries, key, value);
            }
        }
        match self.find(key.as_str()) {
            Some(i) => {
                proof {
                    lemma_position(before_entries, key@);
                }
                self.entries.set(i, (key, value));
            },
            None => {
                let p = self.find_slot(key.as_str());
                self.entries.insert(p, (key, value));
            },
        }
    }
}

impl Untyped {
    /// The object that the value is, if it is one.
    pub fn as_object(&self) -> (r: Option<&Object>)
        ensures
            match r {
                Some(o) => *self == Untyped::Object(*o),
                None => !(self is Object),
            },
    {
        match self {
            Untyped::Object(o) => Some(o),
            _ => None,
        }
    }

    /// Whether the value is a sequence or a mapping.
    pub open spec fn is_compound(self) -> bool {
        self is Array || self is Object
    }
}

} // verus!
