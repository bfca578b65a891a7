//! YAML documents as plain trees, read with the `yaml-rust` loader.

use vstd::prelude::*;

verus! {

/// The error of the YAML scanner.
#[verifier::external_type_specification]
#[verifier::external_body]
pub struct ExScanError(yaml_rust::ScanError);

/// A node as the YAML loader holds it.
#[verifier::external_type_specification]
#[verifier::external_body]
pub struct ExYaml(yaml_rust::Yaml);

/// A node of a YAML document. A hash keeps its entries in the order of the
/// document.
#[derive(Debug)]
pub enum YamlNode {
    /// A number with a fraction, as it is written.
    Real(String),
    /// A whole number.
    Integer(i64),
    /// A string scalar.
    Text(String),
    /// `true` or `false`.
    Boolean(bool),
    /// A sequence.
    Array(Vec<YamlNode>),
    /// A mapping: its keys with their values.
    Hash(Vec<(YamlNode, YamlNode)>),
    /// A reference to an anchor, by its number.
    Alias(usize),
    /// The null value.
    Null,
    /// What stands for a value that is not there or was not understood.
    BadValue,
}

/// The documents that the YAML loader reads from a text, or `None` where it
/// reports a scan error.
pub uninterp spec fn yaml_documents(source: Seq<char>) -> Option<Seq<YamlNode>>;

/// The value of the first entry of `entries` whose key is the text `key`;
/// `BadValue` where there is none.
pub open spec fn first_value(entries: Seq<(YamlNode, YamlNode)>, key: Seq<char>) -> YamlNode
    decreases entries.len(),
{
    if entries.len() == 0 {
        YamlNode::BadValue
    } else if entries[0].0 matches YamlNode::Text(k) && k@ == key {
        entries[0].1
    } else {
        first_value(entries.drop_first(), key)
    }
}

impl YamlNode {
    /// What a hash holds under the text `key`. A node that is no hash, or
    /// has no such key, holds `BadValue` there.
    pub open spec fn at(self, key: Seq<char>) -> YamlNode {
        match self {
            YamlNode::Hash(entries) => first_value(entries@, key),
            _ => YamlNode::BadValue,
        }
    }

    /// The text of a string scalar.
    pub open spec fn text(self) -> Option<Seq<char>> {
        match self {
            YamlNode::Text(s) => Some(s@),
            _ => None,
        }
    }

    /// The items of a sequence; `None` for a node that is no sequence.
    pub open spec fn list(self) -> Option<Seq<YamlNode>> {
        match self {
            YamlNode::Array(items) => Some(items@),
            _ => None,
        }
    }

    /// Looks `key` up in a hash. `None` stands for `BadValue`.
    pub fn field(&self, key: &str) -> (res: Option<&YamlNode>)
        ensures
            match res {
                Some(node) => *node == self.at(key@),
                None => self.at(key@) is BadValue,
            },
    {
        match self {
            YamlNode::Hash(entries) => {
                let wanted = key.to_owned();
                let mut i: usize = 0;
                assert(entries@.skip(0) =~= entries@);
                while i < entries.len()
                    invariant
                        i <= entries@.len(),
                        wanted@ == key@,
                        *self == YamlNode::Hash(*entries),
                        first_value(entries@, key@) == first_value(entries@.skip(i as int), key@),
                    decreases entries@.len() - i,
                {
                    proof {
                        assert(entries@.skip(i as int)[0] == entries@[i as int]);
                        assert(entries@.skip(i as int).drop_first() =~= entries@.skip(i + 1));
                    }
                    if let YamlNode::Text(k) = &entries[i].0 {
                        if *k == wanted {
                            assert(entries@.skip(i as int)[0].0 == YamlNode::Text(*k));
                            assert(first_value(entries@.skip(i as int), key@) == entries@[i as int].1);
                            return Some(&entries[i].1);
                        }
                    }
                    i = i + 1;
                }
                None
            },
            _ => None,
        }
    }

    /// A copy of the text of a string scalar.
    pub fn to_text(&self) -> (res: Option<String>)
        ensures
            match res {
                Some(s) => self.text() == Some(s@),
                None => self.text() is None,
            },
    {
        match self {
            YamlNode::Text(s) => Some(s.clone()),
            _ => None,
        }
    }
}

/// Turns a node of the loader into a `YamlNode`, variant by variant.
#[verifier::external_body]
fn node_of_yaml(yaml: &yaml_rust::Yaml) -> YamlNode {
    match yaml {
        yaml_rust::Yaml::Real(s) => YamlNode::Real(s.clone()),
        yaml_rust::Yaml::Integer(n) => YamlNode::Integer(*n),
        yaml_rust::Yaml::String(s) => YamlNode::Text(s.clone()),
        yaml_rust::Yaml::Boolean(b) => YamlNode::Boolean(*b),
        yaml_rust::Yaml::Array(a) => YamlNode::Array(a.iter().map(node_of_yaml).collect()),
        yaml_rust::Yaml::Hash(h) => YamlNode::Hash(
            h.iter().map(|(k, v)| (node_of_yaml(k), node_of_yaml(v))).collect(),
        ),
        yaml_rust::Yaml::Alias(n) => YamlNode::Alias(*n),
        yaml_rust::Yaml::Null => YamlNode::Null,
        yaml_rust::Yaml::BadValue => YamlNode::BadValue,
    }
}

/// Calls `yaml_rust::YamlLoader::load_from_str` and hands its documents out
/// as `YamlNode` trees. The contract gives the outcome a name: one text has
/// one reading.
#[verifier::external_body]
pub(crate) fn load_yaml(source: &str) -> (res: Result<Vec<YamlNode>, yaml_rust::ScanError>)
    ensures
        match res {
            Ok(docs) => yaml_documents(source@) == Some(docs@),
            Err(_) => yaml_documents(source@) is None,
        },
{
    let docs = yaml_rust::YamlLoader::load_from_str(source)?;
    Ok(docs.iter().map(node_of_yaml).collect())
}

} // verus!
