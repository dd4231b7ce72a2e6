//! The error taxonomy of the plugin.

use vstd::prelude::*;

verus! {

/// Everything that can go wrong while constructing the plugin or
/// transforming a definition tree.  None of these is retried: the first
/// failure of a `transform` call is returned to the caller.
#[derive(Debug)]
pub enum PluginError {
    /// A required backend-address or master-credential value was absent
    /// from the execution environment at construction time.
    ConfigurationMissing,
    /// The configuration document was malformed.
    ConfigParseError,
    /// The configuration document could not be read.
    IoError,
    /// An interpolation referenced a name the resolver does not know.
    /// The payload is the offending variable name.
    UndefinedVariable(String),
    /// The secret backend could not be reached.
    BackendUnavailable,
    /// The secret backend rejected the issuing credential.
    AuthenticationFailed,
}

/// The mathematical model of an [`PluginError`]: the same variants, with the
/// variable name as a sequence of characters.
pub enum PluginErrorV {
    ConfigurationMissing,
    ConfigParseError,
    IoError,
    UndefinedVariable(Seq<char>),
    BackendUnavailable,
    AuthenticationFailed,
}

impl View for PluginError {
    type V = PluginErrorV;

    open spec fn view(&self) -> PluginErrorV {
        match self {
            PluginError::ConfigurationMissing => PluginErrorV::ConfigurationMissing,
            PluginError::ConfigParseError => PluginErrorV::ConfigParseError,
            PluginError::IoError => PluginErrorV::IoError,
            PluginError::UndefinedVariable(name) => PluginErrorV::UndefinedVariable(name@),
            PluginError::BackendUnavailable => PluginErrorV::BackendUnavailable,
            PluginError::AuthenticationFailed => PluginErrorV::AuthenticationFailed,
        }
    }
}

impl PluginError {
    /// A short description of the error, for reporting by the caller.
    pub fn describe(&self) -> (r: &'static str)
        ensures
            r@ == describe_spec(self@),
    {
        match self {
            PluginError::ConfigurationMissing => "required backend configuration is missing",
            PluginError::ConfigParseError => "the configuration document is malformed",
            PluginError::IoError => "the configuration document could not be read",
            PluginError::UndefinedVariable(_) => "an interpolation referenced an undefined variable",
            PluginError::BackendUnavailable => "the secret backend could not be reached",
            PluginError::AuthenticationFailed => "the secret backend rejected the issuing credential",
        }
    }
}

/// What [`PluginError::describe`] returns for each variant.
pub open spec fn describe_spec(e: PluginErrorV) -> Seq<char> {
    match e {
        PluginErrorV::ConfigurationMissing => "required backend configuration is missing"@,
        PluginErrorV::ConfigParseError => "the configuration document is malformed"@,
        PluginErrorV::IoError => "the configuration document could not be read"@,
        PluginErrorV::UndefinedVariable(_) => "an interpolation referenced an undefined variable"@,
        PluginErrorV::BackendUnavailable => "the secret backend could not be reached"@,
        PluginErrorV::AuthenticationFailed => "the secret backend rejected the issuing credential"@,
    }
}

} // verus!
