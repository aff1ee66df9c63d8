use vstd::prelude::*;

verus! {

/// A syntax error that the YAML parser reports.
#[verifier::external_type_specification]
#[verifier::external_body]
pub struct ExScanError(yaml_rust::ScanError);

/// Why a YAML text could not be turned into a configuration table.
#[derive(Debug)]
pub enum ConfigError {
    /// The parser rejected the text.
    Syntax(yaml_rust::ScanError),
    /// The text holds this many documents, where at most one is accepted.
    MultipleDocuments(usize),
    /// The tree holds a null, an unresolved alias or a node the parser
    /// could not represent, where conversion reaches it.
    UnrepresentableNode,
}

impl ConfigError {
    /// A sentence that describes the error.
    pub fn message(&self) -> (r: String)
        ensures
            self is Syntax ==> r@ == "The YAML text does not parse"@,
            self is MultipleDocuments ==> r@ == "More than one YAML document provided"@,
            self is UnrepresentableNode ==> r@
                == "The YAML document holds a null, an alias or an invalid node"@,
    {
        match self {
            ConfigError::Syntax(_) => String::from_str("The YAML text does not parse"),
            ConfigError::MultipleDocuments(_) => String::from_str(
                "More than one YAML document provided",
            ),
            ConfigError::UnrepresentableNode => String::from_str(
                "The YAML document holds a null, an alias or an invalid node",
            ),
        }
    }
}

} // verus!
