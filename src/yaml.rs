//! The part of a parsed YAML document that rules are built from.
use vstd::prelude::*;

verus! {

/// A YAML node: scalars, sequences, and mappings that keep their key order.
pub enum YamlValue {
    Null,
    Boolean(bool),
    Integer(i64),
    /// A real number, as written in the document.
    Real(String),
    Str(String),
    Array(Vec<YamlValue>),
    Hash(Vec<(YamlValue, YamlValue)>),
    /// Aliases and values the YAML reader could not make sense of.
    Other,
}

} // verus!
