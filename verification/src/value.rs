//! TOML values, as far as the library reads them.

use vstd::prelude::*;
use vstd::string::*;

use crate::text;

verus! {

/// A TOML value. A table lists its entries in the order of their keys.
pub enum Toml {
    Text(String),
    Integer(i64),
    Boolean(bool),
    Float,
    Datetime,
    Array(Vec<Toml>),
    Table(Vec<(String, Toml)>),
}

/// The value of the first entry with a key.
pub open spec fn lookup(entries: Seq<(String, Toml)>, key: Seq<char>) -> Option<Toml>
    decreases entries.len(),
{
    if entries.len() == 0 {
        None
    } else if entries[0].0@ == key {
        Some(entries[0].1)
    } else {
        lookup(entries.drop_first(), key)
    }
}

/// The value at a key of a value that may be missing.
pub open spec fn step(v: Option<Toml>, key: Seq<char>) -> Option<Toml> {
    match v {
        Some(x) => x.at(key),
        None => None,
    }
}

/// The text of a value that may be missing.
pub open spec fn text_of(v: Option<Toml>) -> Option<Seq<char>> {
    match v {
        Some(Toml::Text(t)) => Some(t@),
        _ => None,
    }
}

/// The flag of a value that may be missing.
pub open spec fn flag_of(v: Option<Toml>) -> Option<bool> {
    match v {
        Some(Toml::Boolean(b)) => Some(b),
        _ => None,
    }
}

/// The elements of a value that may be missing.
pub open spec fn items_of(v: Option<Toml>) -> Option<Seq<Toml>> {
    match v {
        Some(Toml::Array(a)) => Some(a@),
        _ => None,
    }
}

/// The entries of a value that may be missing.
pub open spec fn rows_of(v: Option<Toml>) -> Option<Seq<(String, Toml)>> {
    match v {
        Some(Toml::Table(t)) => Some(t@),
        _ => None,
    }
}

/// The texts among a list of values.
pub open spec fn texts_among(a: Seq<Toml>) -> Seq<Seq<char>>
    decreases a.len(),
{
    if a.len() == 0 {
        Seq::empty()
    } else if let Toml::Text(t) = a.last() {
        texts_among(a.drop_last()).push(t@)
    } else {
        texts_among(a.drop_last())
    }
}

impl Toml {
    /// The value at a key, where the value is a table.
    pub open spec fn at(self, key: Seq<char>) -> Option<Toml> {
        match self {
            Toml::Table(t) => lookup(t@, key),
            _ => None,
        }
    }

    /// The value at a key, where the value is a table.
    pub fn get(&self, key: &str) -> (r: Option<&Toml>)
        ensures
            match r {
                Some(v) => self.at(key@) == Some(*v),
                None => self.at(key@) is None,
            },
    {
        match self {
            Toml::Table(t) => find_entry(t, key),
            _ => None,
        }
    }
}

/// The value of the first entry with a key.
pub fn find_entry<'a>(entries: &'a Vec<(String, Toml)>, key: &str) -> (r: Option<&'a Toml>)
    ensures
        match r {
            Some(v) => lookup(entries@, key@) == Some(*v),
            None => lookup(entries@, key@) is None,
        },
{
    let mut i: usize = 0;
    assert(entries@.skip(0) =~= entries@);
    while i < entries.len()
        invariant
            i <= entries.len(),
            lookup(entries@.skip(i as int), key@) == lookup(entries@, key@),
        decreases entries.len() - i,
    {
        if text::same(entries[i].0.as_str(), key) {
            return Some(&entries[i].1);
        }
        assert(entries@.skip(i as int).drop_first() =~= entries@.skip(i + 1));
        i += 1;
    }
    None
}

/// The value at a key of a value that may be missing.
pub fn step_in<'a>(v: Option<&'a Toml>, key: &str) -> (r: Option<&'a Toml>)
    ensures
        match r {
            Some(x) => v is Some && v.unwrap().at(key@) == Some(*x),
            None => v is None || v.unwrap().at(key@) is None,
        },
{
    match v {
        Some(x) => x.get(key),
        None => None,
    }
}

/// A value that may be missing, without the reference.
pub open spec fn plain(v: Option<&Toml>) -> Option<Toml> {
    match v {
        Some(x) => Some(*x),
        None => None,
    }
}

/// The text of a value that may be missing.
pub fn as_str(v: Option<&Toml>) -> (r: Option<&String>)
    ensures
        match r {
            Some(t) => text_of(plain(v)) == Some(t@),
            None => text_of(plain(v)) is None,
        },
{
    match v {
        Some(Toml::Text(t)) => Some(t),
        _ => None,
    }
}

/// The flag of a value that may be missing.
pub fn as_bool(v: Option<&Toml>) -> (r: Option<bool>)
    ensures
        r == flag_of(plain(v)),
{
    match v {
        Some(Toml::Boolean(b)) => Some(*b),
        _ => None,
    }
}

/// The elements of a value that may be missing.
pub fn as_array(v: Option<&Toml>) -> (r: Option<&Vec<Toml>>)
    ensures
        match r {
            Some(a) => items_of(plain(v)) == Some(a@),
            None => items_of(plain(v)) is None,
        },
{
    match v {
        Some(Toml::Array(a)) => Some(a),
        _ => None,
    }
}

/// The entries of a value that may be missing.
pub fn as_table(v: Option<&Toml>) -> (r: Option<&Vec<(String, Toml)>>)
    ensures
        match r {
            Some(t) => rows_of(plain(v)) == Some(t@),
            None => rows_of(plain(v)) is None,
        },
{
    match v {
        Some(Toml::Table(t)) => Some(t),
        _ => None,
    }
}

/// The texts among a list of values.
pub fn texts_in(a: &Vec<Toml>) -> (r: Vec<String>)
    ensures
        text::texts(r@) == texts_among(a@),
{
    broadcast use text::lemma_texts_push;

    let mut out: Vec<String> = Vec::new();
    let mut i: usize = 0;
    assert(a@.take(0) =~= Seq::<Toml>::empty());
    while i < a.len()
        invariant
            i <= a.len(),
            text::texts(out@) == texts_among(a@.take(i as int)),
        decreases a.len() - i,
    {
        assert(a@.take(i + 1).drop_last() =~= a@.take(i as int));
        if let Toml::Text(t) = &a[i] {
            out.push(t.clone());
        }
        i += 1;
    }
    assert(a@.take(i as int) =~= a@);
    out
}

// ── What is believed of toml ──

/// toml's value.
#[verifier::external_type_specification]
#[verifier::external_body]
pub struct ExTomlValue(toml::Value);

/// What a value of toml holds.
pub uninterp spec fn toml_value(v: toml::Value) -> Toml;

/// What a TOML text reads as, or the reader's complaint.
pub uninterp spec fn parsed_toml(content: Seq<char>) -> Result<Toml, Seq<char>>;

/// Turns each kind of `toml::Value` into the library's own, entry by entry in the order in
/// which `Table` walks them.
#[verifier::external_body]
fn converted(v: toml::Value) -> (r: Toml)
    ensures
        r == toml_value(v),
{
    match v {
        toml::Value::String(t) => Toml::Text(t),
        toml::Value::Integer(n) => Toml::Integer(n),
        toml::Value::Boolean(b) => Toml::Boolean(b),
        toml::Value::Float(_) => Toml::Float,
        toml::Value::Datetime(_) => Toml::Datetime,
        toml::Value::Array(a) => Toml::Array(a.into_iter().map(converted).collect()),
        toml::Value::Table(t) => {
            Toml::Table(t.into_iter().map(|(k, x)| (k, converted(x))).collect())
        },
    }
}

/// `toml::from_str`: the value that a text writes down, or the error's text; what either holds
/// is named by `parsed_toml`.
#[verifier::external_body]
fn read_toml(content: &str) -> (r: Result<toml::Value, String>)
    ensures
        match r {
            Ok(v) => parsed_toml(content@) == Ok::<Toml, Seq<char>>(toml_value(v)),
            Err(e) => parsed_toml(content@) == Err::<Toml, Seq<char>>(e@),
        },
{
    toml::from_str(content).map_err(|e| e.to_string())
}

/// The message for a file that is no TOML.
pub open spec fn parsing_message(path: Seq<char>, complaint: Seq<char>) -> Seq<char> {
    "parsing "@ + path + ": "@ + complaint
}

/// The value that a TOML text writes down.
pub fn parse_toml(content: &str) -> (r: Result<Toml, String>)
    ensures
        match r {
            Ok(v) => parsed_toml(content@) == Ok::<Toml, Seq<char>>(v),
            Err(e) => parsed_toml(content@) == Err::<Toml, Seq<char>>(e@),
        },
{
    match read_toml(content) {
        Ok(v) => Ok(converted(v)),
        Err(e) => Err(e),
    }
}

/// What is found at a key is the value of an entry with that key, and no entry before it has the
/// key; nothing is found where none has.
pub proof fn law_first_entry_counts(entries: Seq<(String, Toml)>, key: Seq<char>)
    ensures
        match lookup(entries, key) {
            Some(v) => exists|i: int|
                0 <= i < entries.len() && (#[trigger] entries[i]).0@ == key && entries[i].1 == v
                    && forall|j: int| 0 <= j < i ==> (#[trigger] entries[j]).0@ != key,
            None => forall|j: int| 0 <= j < entries.len() ==> (#[trigger] entries[j]).0@ != key,
        },
    decreases entries.len(),
{
    if entries.len() > 0 {
        let rest = entries.drop_first();
        law_first_entry_counts(rest, key);
        if entries[0].0@ == key {
        } else if let Some(v) = lookup(rest, key) {
            let i = choose|i: int|
                0 <= i < rest.len() && (#[trigger] rest[i]).0@ == key && rest[i].1 == v
                    && forall|j: int| 0 <= j < i ==> (#[trigger] rest[j]).0@ != key;
            assert(entries[i + 1] == rest[i]);
            assert forall|j: int| 0 <= j < i + 1 implies (#[trigger] entries[j]).0@ != key by {
                if j > 0 {
                    assert(entries[j] == rest[j - 1]);
                }
            }
        } else {
            assert forall|j: int| 0 <= j < entries.len() implies (#[trigger] entries[j]).0@
                != key by {
                if j > 0 {
                    assert(entries[j] == rest[j - 1]);
                }
            }
        }
    }
}

/// The texts among a list of values are all of them, in order.
pub proof fn law_texts_are_picked(a: Seq<Toml>)
    ensures
        texts_among(a) == a.filter(
            |v: Toml| v is Text,
        ).map_values(
            |v: Toml| v->Text_0@,
        ),
    decreases a.len(),
{
    reveal(Seq::filter);
    if a.len() > 0 {
        law_texts_are_picked(a.drop_last());
    }
}

} // verus!
