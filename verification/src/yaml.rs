//! A plain model of a YAML (or JSON) document, the two YAML loaders the
//! catalog uses, and lookups over the model.
use vstd::prelude::*;
use crate::text::str_eq;
use serde_yaml::Value;

verus! {

/// A YAML node as the catalog reads it. Numbers that are integers are kept
/// exactly; other numbers keep their text. Mappings keep their entries in
/// document order.
#[derive(Debug)]
pub enum YamlValue {
    Null,
    Bool(bool),
    Int(i128),
    Float(String),
    Str(String),
    Sequence(Vec<YamlValue>),
    Mapping(Vec<(YamlValue, YamlValue)>),
    Other,
}


#[verifier::external_type_specification]
#[verifier::external_body]
pub struct ExSerdeYamlValue(serde_yaml::Value);

#[verifier::external_type_specification]
#[verifier::external_body]
pub struct ExSerdeYamlNumber(serde_yaml::Number);

#[verifier::external_type_specification]
#[verifier::external_body]
pub struct ExYamlRustYaml(yaml_rust::Yaml);

/// What `serde_yaml::from_str::<serde_yaml::Value>` yields for a text, as a
/// `YamlValue` (`None` when the text is not a YAML document).
pub uninterp spec fn serde_yaml_document(text: Seq<char>) -> Option<YamlValue>;

/// What `yaml_rust::YamlLoader::load_from_str` yields for a text, as
/// `YamlValue`s (`None` when the scanner reports an error).
pub uninterp spec fn yaml_rust_documents(text: Seq<char>) -> Option<Seq<YamlValue>>;

/// Converts a `serde_yaml::Number`: an integer when it is one, else its text.
#[verifier::external_body]
fn from_yaml_number(n: &serde_yaml::Number) -> YamlValue {
    match (n.as_u64(), n.as_i64()) {
        (Some(u), _) => YamlValue::Int(u as i128),
        (None, Some(i)) => YamlValue::Int(i as i128),
        _ => YamlValue::Float(n.to_string()),
    }
}

/// Converts a `serde_yaml::Value`. Tags on values are looked through, as the
/// value's own accessors (`as_str`, `get`...) do; a tagged mapping key
/// becomes `Other`, since a lookup by a string key matches only plain
/// string keys.
#[verifier::external_body]
fn from_serde_yaml(v: &Value) -> YamlValue {
    match v {
        Value::Null => YamlValue::Null,
        Value::Bool(b) => YamlValue::Bool(*b),
        Value::Number(n) => from_yaml_number(n),
        Value::String(s) => YamlValue::Str(s.clone()),
        Value::Sequence(s) => YamlValue::Sequence(s.iter().map(from_serde_yaml).collect()),
        Value::Mapping(m) => YamlValue::Mapping(m.iter().map(|(k, v)| (from_serde_yaml_key(k), from_serde_yaml(v))).collect()),
        Value::Tagged(t) => from_serde_yaml(&t.value),
    }
}

/// Converts a mapping key of a `serde_yaml::Value`: a tagged key becomes
/// `Other`, any other key is converted as a value.
#[verifier::external_body]
fn from_serde_yaml_key(k: &Value) -> YamlValue {
    match k {
        Value::Tagged(_) => YamlValue::Other,
        _ => from_serde_yaml(k),
    }
}

/// Converts a `yaml_rust::Yaml` node (aliases and bad values become `Other`).
#[verifier::external_body]
fn from_yaml_rust(v: &yaml_rust::Yaml) -> YamlValue {
    match v {
        yaml_rust::Yaml::Real(s) => YamlValue::Float(s.clone()),
        yaml_rust::Yaml::Integer(i) => YamlValue::Int(*i as i128),
        yaml_rust::Yaml::String(s) => YamlValue::Str(s.clone()),
        yaml_rust::Yaml::Boolean(b) => YamlValue::Bool(*b),
        yaml_rust::Yaml::Array(a) => YamlValue::Sequence(a.iter().map(from_yaml_rust).collect()),
        yaml_rust::Yaml::Hash(h) => YamlValue::Mapping(
            h.iter().map(|(k, v)| (from_yaml_rust(k), from_yaml_rust(v))).collect(),
        ),
        yaml_rust::Yaml::Null => YamlValue::Null,
        _ => YamlValue::Other,
    }
}

/// `serde_yaml::from_str::<serde_yaml::Value>`: parses one YAML document.
#[verifier::external_body]
pub(crate) fn parse_yaml_document(text: &str) -> (r: Option<YamlValue>)
    ensures
        r == serde_yaml_document(text@),
{
    match serde_yaml::from_str::<serde_yaml::Value>(text) {
        Ok(v) => Some(from_serde_yaml(&v)),
        Err(_) => None,
    }
}

/// `yaml_rust::YamlLoader::load_from_str`: loads every document of a text.
#[verifier::external_body]
pub(crate) fn load_yaml_documents(text: &str) -> (r: Option<Vec<YamlValue>>)
    ensures
        match r {
            Some(docs) => yaml_rust_documents(text@) == Some(docs@),
            None => yaml_rust_documents(text@) is None,
        },
{
    match yaml_rust::YamlLoader::load_from_str(text) {
        Ok(docs) => Some(docs.iter().map(from_yaml_rust).collect()),
        Err(_) => None,
    }
}

/// The node is the string `key`.
pub open spec fn is_str_node(k: YamlValue, key: Seq<char>) -> bool {
    match k {
        YamlValue::Str(s) => s@ == key,
        _ => false,
    }
}

/// The value of the first entry whose key is the string `key`.
pub open spec fn entries_lookup(entries: Seq<(YamlValue, YamlValue)>, key: Seq<char>) -> Option<YamlValue>
    decreases entries.len(),
{
    if entries.len() == 0 {
        None
    } else if is_str_node(entries[0].0, key) {
        Some(entries[0].1)
    } else {
        entries_lookup(entries.drop_first(), key)
    }
}

/// `value.get(key)`: the entry of a mapping under a string key; `None` for
/// any other node.
pub open spec fn yaml_get(v: YamlValue, key: Seq<char>) -> Option<YamlValue> {
    match v {
        YamlValue::Mapping(m) => entries_lookup(m@, key),
        _ => None,
    }
}

/// `yaml_get` through an optional node.
pub open spec fn yaml_get_opt(v: Option<YamlValue>, key: Seq<char>) -> Option<YamlValue> {
    match v {
        Some(n) => yaml_get(n, key),
        None => None,
    }
}

/// `value.as_str()`.
pub open spec fn yaml_str(v: YamlValue) -> Option<Seq<char>> {
    match v {
        YamlValue::Str(s) => Some(s@),
        _ => None,
    }
}

/// The node is absent or is a string.
pub open spec fn absent_or_str(v: Option<YamlValue>) -> bool {
    match v {
        Some(n) => n is Str,
        None => true,
    }
}

/// The string of an optional node, or `default` when it is absent.
pub open spec fn str_or(v: Option<YamlValue>, default: Seq<char>) -> Seq<char> {
    match v {
        Some(n) => match yaml_str(n) {
            Some(s) => s,
            None => default,
        },
        None => default,
    }
}

/// Number of entries of a mapping node, 0 for any other node.
pub open spec fn mapping_len(v: Option<YamlValue>) -> nat {
    match v {
        Some(YamlValue::Mapping(m)) => m@.len(),
        _ => 0,
    }
}

impl YamlValue {
    /// `value.get(key)` for a string key.
    pub fn get<'a>(&'a self, key: &str) -> (r: Option<&'a YamlValue>)
        ensures
            match r {
                Some(v) => yaml_get(*self, key@) == Some(*v),
                None => yaml_get(*self, key@) is None,
            },
    {
        match self {
            YamlValue::Mapping(entries) => {
                let mut i: usize = 0;
                proof {
                    assert(entries@.skip(0) =~= entries@);
                }
                while i < entries.len()
                    invariant
                        i <= entries@.len(),
                        yaml_get(*self, key@) == entries_lookup(entries@, key@),
                        entries_lookup(entries@, key@) == entries_lookup(entries@.skip(i as int), key@),
                    decreases entries@.len() - i,
                {
                    proof {
                        assert(entries@.skip(i as int).drop_first() =~= entries@.skip(i + 1));
                    }
                    if let YamlValue::Str(s) = &entries[i].0 {
                        if str_eq(s.as_str(), key) {
                            proof {
                                assert(entries@.skip(i as int)[0] == entries@[i as int]);
                                assert(is_str_node(entries@[i as int].0, key@));
                                assert(entries_lookup(entries@.skip(i as int), key@) == Some(entries@[i as int].1));
                            }
                            return Some(&entries[i].1);
                        }
                    }
                    i = i + 1;
                }
                None
            },
            _ => None,
        }
    }

    /// `value.as_str()`.
    pub fn as_str<'a>(&'a self) -> (r: Option<&'a str>)
        ensures
            match r {
                Some(s) => yaml_str(*self) == Some(s@),
                None => yaml_str(*self) is None,
            },
    {
        match self {
            YamlValue::Str(s) => Some(s.as_str()),
            _ => None,
        }
    }
}

} // verus!
