//! Errors raised while reading a manifest or resolving its dependency groups.
use vstd::prelude::*;

verus! {

#[verifier::external_type_specification]
#[verifier::external_body]
pub struct ExIoError(std::io::Error);

#[verifier::external_type_specification]
#[verifier::external_body]
pub struct ExTomlError(toml::de::Error);

#[derive(Debug)]
pub enum ParsingError {
    /// The manifest or requirements file could not be read.
    Io(std::io::Error),
    /// The manifest text is not a TOML document.
    TomlParse(toml::de::Error),
    /// A field that had to be present is absent.
    MissingField(String),
    /// Group `from_group` includes `included`, which the manifest does not declare.
    MissingDependencyGroup { included: String, from_group: String },
    /// Group `group` was reached a second time while resolving one selected group.
    CircularDependencyGroup { group: String },
}

} // verus!
