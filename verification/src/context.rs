//! The deployment identity and the environment in which configuration
//! templates are interpreted.

use vstd::prelude::*;

use crate::errors::{PluginError, PluginErrorV};
use crate::strutil::str_eq;

verus! {

/// The identity of one transform pass: which project, override and pod
/// the merged definition tree belongs to.  The hosting tool supplies one
/// per call; the plugin only reads it.
pub struct Context {
    /// The project name.
    pub project: String,
    /// The override (deployment-environment variant) name.
    pub ovr: String,
    /// The pod name.
    pub pod: String,
}

/// The mathematical model of a [`Context`].
pub struct ContextV {
    pub project: Seq<char>,
    pub ovr: Seq<char>,
    pub pod: Seq<char>,
}

impl View for Context {
    type V = ContextV;

    open spec fn view(&self) -> ContextV {
        ContextV { project: self.project@, ovr: self.ovr@, pod: self.pod@ }
    }
}

/// What the resolver binds a variable name to: the deployment identity's
/// fields for the four recognized names, and nothing for any other.  The
/// resolver deliberately never reads process environment variables, so
/// interpolation is reproducible wherever it runs.
pub open spec fn resolve_spec(ctx: ContextV, service: Seq<char>, name: Seq<char>) -> Option<
    Seq<char>,
> {
    if name == "PROJECT"@ {
        Some(ctx.project)
    } else if name == "OVERRIDE"@ {
        Some(ctx.ovr)
    } else if name == "POD"@ {
        Some(ctx.pod)
    } else if name == "SERVICE"@ {
        Some(service)
    } else {
        None
    }
}

/// The environment in which a configuration template is interpreted: a
/// small fixed set of values bound to the current deployment identity and
/// service, rather than the process environment.
pub struct ConfigEnvironment<'a> {
    /// The identity of the current transform pass.
    pub ctx: &'a Context,
    /// The name of the service currently being processed.
    pub service: &'a str,
}

impl<'a> ConfigEnvironment<'a> {
    /// Looks one variable name up in this environment.
    pub fn var(&self, key: &str) -> (r: Result<String, PluginError>)
        ensures
            match resolve_spec(self.ctx@, self.service@, key@) {
                Some(v) => r matches Ok(s) && s@ == v,
                None => r matches Err(e) && e@ == PluginErrorV::UndefinedVariable(key@),
            },
    {
        if str_eq(key, "PROJECT") {
            Ok(self.ctx.project.clone())
        } else if str_eq(key, "OVERRIDE") {
            Ok(self.ctx.ovr.clone())
        } else if str_eq(key, "POD") {
            Ok(self.ctx.pod.clone())
        } else if str_eq(key, "SERVICE") {
            Ok(self.service.to_owned())
        } else {
            Err(PluginError::UndefinedVariable(key.to_owned()))
        }
    }
}

} // verus!
