//! YAML documents as plain values, loaded by the `yaml-rust2` crate.
use vstd::prelude::*;
use yaml_rust2::Yaml;

verus! {

/// One node of a YAML document, with the same variants as `yaml_rust2::Yaml`.
/// A mapping keeps its entries in document order.
#[derive(Debug, PartialEq)]
pub enum YamlValue {
    Real(String),
    Integer(i64),
    Str(String),
    Boolean(bool),
    Array(Vec<YamlValue>),
    Mapping(Vec<(YamlValue, YamlValue)>),
    Alias(usize),
    Null,
    Bad,
}

#[verifier::external_type_specification]
#[verifier::external_body]
pub struct ExYaml(Yaml);

/// What `yaml_rust2::YamlLoader::load_from_str` gives for a text: its documents,
/// each node as a `YamlValue`, or the `Display` text of the scan error.
pub uninterp spec fn yaml_documents(text: Seq<char>) -> Result<Vec<YamlValue>, String>;

/// Loads the YAML documents of `text` with `yaml_rust2::YamlLoader::load_from_str`.
/// The contract claims only that the result is the one that `yaml_documents` names
/// for this text: documents in order, mapping entries in insertion order, or the
/// scan error's message.
#[verifier::external_body]
pub(crate) fn load_yaml_documents(text: &str) -> (r: Result<Vec<YamlValue>, String>)
    ensures
        r == yaml_documents(text@),
{
    match yaml_rust2::YamlLoader::load_from_str(text) {
        Ok(docs) => Ok(docs.iter().map(yaml_value_of).collect()),
        Err(e) => Err(e.to_string()),
    }
}

/// Converts a node of `yaml_rust2`'s tree, variant by variant, keeping the order
/// of mapping entries (`hashlink::LinkedHashMap::iter`). Nothing is claimed of the
/// result here: `load_yaml_documents` states what the loaded tree is.
#[verifier::external_body]
fn yaml_value_of(node: &Yaml) -> YamlValue {
    match node {
        Yaml::Real(s) => YamlValue::Real(s.clone()),
        Yaml::Integer(i) => YamlValue::Integer(*i),
        Yaml::String(s) => YamlValue::Str(s.clone()),
        Yaml::Boolean(b) => YamlValue::Boolean(*b),
        Yaml::Array(a) => YamlValue::Array(a.iter().map(yaml_value_of).collect()),
        Yaml::Hash(h) => YamlValue::Mapping(h.iter().map(|(k, v)| (yaml_value_of(k), yaml_value_of(v))).collect()),
        Yaml::Alias(n) => YamlValue::Alias(*n),
        Yaml::Null => YamlValue::Null,
        Yaml::BadValue => YamlValue::Bad,
    }
}

} // verus!
