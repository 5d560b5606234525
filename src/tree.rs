//! The manifest as a tree of TOML values, and safe lookups into it.
use vstd::prelude::*;
use vstd::string::StrSliceExecFns;

use crate::error::ParsingError;

verus! {

#[verifier::external_type_specification]
#[verifier::external_body]
pub struct ExTomlValue(toml::Value);

/// A TOML value. Floats and date-times carry nothing that extraction reads and
/// are kept as `Other`.
#[derive(Debug)]
pub enum TomlValue {
    Str(String),
    Integer(i64),
    Boolean(bool),
    Array(Vec<TomlValue>),
    /// Key/value pairs in document order; keys are distinct.
    Table(Vec<(String, TomlValue)>),
    Other,
}

/// The value of the first entry whose key is `key`.
pub open spec fn lookup(entries: Seq<(String, TomlValue)>, key: Seq<char>) -> Option<TomlValue>
    decreases entries.len(),
{
    if entries.len() == 0 {
        None
    } else if entries[0].0@ == key {
        Some(entries[0].1)
    } else {
        lookup(entries.drop_first(), key)
    }
}

/// The value under `key` when `v` is a table holding that key.
pub open spec fn child(v: Option<TomlValue>, key: Seq<char>) -> Option<TomlValue> {
    match v {
        Some(TomlValue::Table(entries)) => lookup(entries@, key),
        _ => None,
    }
}

/// A borrowed optional value, seen as the value itself.
pub open spec fn deref_opt(r: Option<&TomlValue>) -> Option<TomlValue> {
    match r {
        Some(v) => Some(*v),
        None => None,
    }
}

/// The text of a string value.
pub open spec fn str_of(v: Option<TomlValue>) -> Option<Seq<char>> {
    match v {
        Some(TomlValue::Str(s)) => Some(s@),
        _ => None,
    }
}

/// Whether `toml::from_str` accepts `text` as a TOML document.
pub uninterp spec fn toml_accepts(text: Seq<char>) -> bool;

/// The document that `toml::from_str` reads from `text`, as a tree.
pub uninterp spec fn parsed_tree(text: Seq<char>) -> TomlValue;

/// Whether two texts hold the same characters.
pub fn same_text(a: &str, b: &str) -> (r: bool)
    ensures
        r == (a@ == b@),
{
    let n = a.unicode_len();
    if n != b.unicode_len() {
        return false;
    }
    let mut i: usize = 0;
    while i < n
        invariant
            n == a@.len() == b@.len(),
            i <= n,
            a@.take(i as int) == b@.take(i as int),
        decreases n - i,
    {
        if a.get_char(i) != b.get_char(i) {
            assert(a@[i as int] != b@[i as int]);
            return false;
        }
        assert(a@.take(i + 1) == a@.take(i as int).push(a@[i as int]));
        assert(b@.take(i + 1) == b@.take(i as int).push(b@[i as int]));
        i = i + 1;
    }
    assert(a@.take(n as int) == a@);
    assert(b@.take(n as int) == b@);
    true
}

proof fn lemma_lookup_suffix(entries: Seq<(String, TomlValue)>, i: int, key: Seq<char>)
    requires
        0 <= i < entries.len(),
    ensures
        lookup(entries.subrange(i, entries.len() as int), key) == (if entries[i].0@ == key {
            Some(entries[i].1)
        } else {
            lookup(entries.subrange(i + 1, entries.len() as int), key)
        }),
{
    let s = entries.subrange(i, entries.len() as int);
    assert(s.drop_first() == entries.subrange(i + 1, entries.len() as int));
}

/// The value of the first entry of `entries` whose key is `key`.
pub fn lookup_entry<'a>(entries: &'a Vec<(String, TomlValue)>, key: &str) -> (r: Option<
    &'a TomlValue,
>)
    ensures
        deref_opt(r) == lookup(entries@, key@),
{
    let mut i: usize = 0;
    proof {
        assert(entries@.subrange(0, entries@.len() as int) == entries@);
    }
    while i < entries.len()
        invariant
            i <= entries@.len(),
            lookup(entries@, key@) == lookup(entries@.subrange(i as int, entries@.len() as int), key@),
        decreases entries.len() - i,
    {
        proof {
            lemma_lookup_suffix(entries@, i as int, key@);
        }
        let entry = &entries[i];
        if same_text(entry.0.as_str(), key) {
            return Some(&entry.1);
        }
        i = i + 1;
    }
    None
}

impl TomlValue {
    /// The value under `key`, when this value is a table that holds it.
    pub fn get(&self, key: &str) -> (r: Option<&TomlValue>)
        ensures
            deref_opt(r) == child(Some(*self), key@),
    {
        match self {
            TomlValue::Table(entries) => lookup_entry(entries, key),
            _ => None,
        }
    }

    /// The text of this value, when it is a string.
    pub fn as_str(&self) -> (r: Option<&str>)
        ensures
            r matches Some(s) ==> str_of(Some(*self)) == Some(s@),
            r is None ==> str_of(Some(*self)) is None,
    {
        match self {
            TomlValue::Str(s) => Some(s.as_str()),
            _ => None,
        }
    }
}

/// The value under `key` in `v`, when `v` is a table that holds it.
pub fn child_of<'a>(v: Option<&'a TomlValue>, key: &str) -> (r: Option<&'a TomlValue>)
    ensures
        deref_opt(r) == child(deref_opt(v), key@),
{
    match v {
        Some(t) => t.get(key),
        None => None,
    }
}

/// Relies on `toml::from_str`: it succeeds exactly on well-formed TOML, and
/// the document it gives depends on the text alone.
#[verifier::external_body]
fn toml_tree_from_str(text: &str) -> (r: Result<TomlValue, toml::de::Error>)
    ensures
        r is Ok == toml_accepts(text@),
        r matches Ok(t) ==> t == parsed_tree(text@),
{
    toml::from_str(text).map(tree_from_toml)
}

/// Moves a parsed `toml::Value` into the library's own tree, one value for one.
#[verifier::external_body]
fn tree_from_toml(v: toml::Value) -> (r: TomlValue) {
    match v {
        toml::Value::String(s) => TomlValue::Str(s),
        toml::Value::Integer(i) => TomlValue::Integer(i),
        toml::Value::Boolean(b) => TomlValue::Boolean(b),
        toml::Value::Array(a) => TomlValue::Array(a.into_iter().map(tree_from_toml).collect()),
        toml::Value::Table(t) => TomlValue::Table(
            t.into_iter().map(|(k, x)| (k, tree_from_toml(x))).collect(),
        ),
        toml::Value::Float(_) => TomlValue::Other,
        toml::Value::Datetime(_) => TomlValue::Other,
    }
}

/// Parses manifest text into a tree; fails with `TomlParse` exactly when the
/// text is not TOML.
pub fn parse_manifest(text: &str) -> (r: Result<TomlValue, ParsingError>)
    ensures
        r is Ok == toml_accepts(text@),
        r matches Ok(t) ==> t == parsed_tree(text@),
        r matches Err(e) ==> e is TomlParse,
{
    match toml_tree_from_str(text) {
        Ok(t) => Ok(t),
        Err(e) => Err(ParsingError::TomlParse(e)),
    }
}

} // verus!
