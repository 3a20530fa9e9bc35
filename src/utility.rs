//! The canonical key of a module.

use vstd::prelude::*;
use vstd::string::StringExecFns;

use crate::module::{Module, ModuleCore};

verus! {

/// `"{namespace}/{name}/{version}"`.
pub open spec fn core_key(c: ModuleCore) -> Seq<char> {
    c.namespace@ + "/"@ + c.name@ + "/"@ + c.version@
}

/// A key cannot be made for a module without a core.
#[derive(Debug)]
pub struct ModuleCoreKeyErr;

impl ModuleCoreKeyErr {
    /// What went wrong, in words.
    pub fn message(&self) -> (r: String)
        ensures
            r@ == "invalid module: failed to create a key"@,
    {
        String::from_str("invalid module: failed to create a key")
    }
}

/// The canonical key of a module identity.
pub fn core_key_of(c: &ModuleCore) -> (r: String)
    ensures
        r@ == core_key(*c),
{
    let mut s = c.namespace.clone();
    s.append("/");
    s.append(c.name.as_str());
    s.append("/");
    s.append(c.version.as_str());
    s
}

/// The canonical key of a module; an error where the module has no core.
pub fn module_core_key(md: &Module) -> (r: Result<String, ModuleCoreKeyErr>)
    ensures
        md.core is None <==> r is Err,
        md.core is Some ==> r is Ok && r->Ok_0@ == core_key(md.core->0),
{
    match &md.core {
        Some(c) => Ok(core_key_of(c)),
        None => Err(ModuleCoreKeyErr),
    }
}

} // verus!
