//! The YAML documents that the message database and the configuration are written in,
//! as plain values, and the calls into `yaml_rust2` that load and emit them.
use vstd::prelude::*;
use yaml_rust2::{Yaml, YamlEmitter, YamlLoader};

verus! {

/// A YAML node, with the shape of `yaml_rust2::Yaml`: scalars as they were classified by the
/// loader, sequences in order, and mappings as their (key, value) entries in document order.
#[derive(Debug, PartialEq)]
pub enum YamlValue {
    /// A float scalar, kept as its text.
    Real(String),
    /// An integer scalar.
    Integer(i64),
    /// A string scalar.
    String(String),
    /// A boolean scalar.
    Boolean(bool),
    /// A sequence.
    Array(Vec<YamlValue>),
    /// A mapping, as its entries in document order.
    Hash(Vec<(YamlValue, YamlValue)>),
    /// An alias.
    Alias(usize),
    /// `null` or `~`.
    Null,
    /// A node that could not be represented.
    BadValue,
}

#[verifier::external_type_specification]
#[verifier::external_body]
pub struct ExYaml(Yaml);

/// The documents that `yaml_rust2::YamlLoader::load_from_str` reads from `text`, one
/// `YamlValue` per document; `None` where it reports a scan error.
pub uninterp spec fn yaml_documents(text: Seq<char>) -> Option<Seq<YamlValue>>;

/// The text that `yaml_rust2::YamlEmitter::dump` writes for a mapping whose entries are the
/// given string keys and string values, in that order; `None` where it reports an error.
pub uninterp spec fn yaml_emitted_string_map(entries: Seq<(Seq<char>, Seq<char>)>) -> Option<Seq<char>>;

/// The model of loaded documents.
pub open spec fn documents_view(docs: Option<Vec<YamlValue>>) -> Option<Seq<YamlValue>> {
    match docs {
        Some(d) => Some(d@),
        None => None,
    }
}

/// Copies one `yaml_rust2::Yaml` node, variant by variant, into a `YamlValue`
/// (the conversion that `load_yaml_documents` applies to each loaded document).
#[verifier::external_body]
fn yaml_value(node: &Yaml) -> YamlValue {
    match node {
        Yaml::Real(s) => YamlValue::Real(s.clone()),
        Yaml::Integer(i) => YamlValue::Integer(*i),
        Yaml::String(s) => YamlValue::String(s.clone()),
        Yaml::Boolean(b) => YamlValue::Boolean(*b),
        Yaml::Array(a) => YamlValue::Array(a.iter().map(yaml_value).collect()),
        Yaml::Hash(h) => YamlValue::Hash(h.iter().map(|(k, v)| (yaml_value(k), yaml_value(v))).collect()),
        Yaml::Alias(n) => YamlValue::Alias(*n),
        Yaml::Null => YamlValue::Null,
        Yaml::BadValue => YamlValue::BadValue,
    }
}

/// Calls `yaml_rust2::YamlLoader::load_from_str`. Claimed: the result is the named
/// `yaml_documents` of the text, a function of the text alone; nothing is said of its shape.
#[verifier::external_body]
pub(crate) fn load_yaml_documents(text: &str) -> (docs: Option<Vec<YamlValue>>)
    ensures
        yaml_documents(text@) == documents_view(docs),
{
    match YamlLoader::load_from_str(text) {
        Ok(docs) => Some(docs.iter().map(yaml_value).collect()),
        Err(_) => None,
    }
}

/// Calls `yaml_rust2::YamlEmitter::dump` on a mapping built from string keys and string
/// values. Claimed: the result is the named `yaml_emitted_string_map` of the entries' texts.
#[verifier::external_body]
pub(crate) fn emit_string_map(entries: &Vec<(String, String)>) -> (text: Option<String>)
    ensures
        yaml_emitted_string_map(entries.deep_view()) == match text {
            Some(t) => Some(t@),
            None => None::<Seq<char>>,
        },
{
    let mut hash = yaml_rust2::yaml::Hash::new();
    for (k, v) in entries.iter() {
        hash.insert(Yaml::String(k.clone()), Yaml::String(v.clone()));
    }
    let mut out = String::new();
    match YamlEmitter::new(&mut out).dump(&Yaml::Hash(hash)) {
        Ok(()) => Some(out),
        Err(_) => None,
    }
}

} // verus!
