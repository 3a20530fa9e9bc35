//! Plugins: a module split into its sections, each of which a plugin must
//! have, and the commands a plugin manager takes.

use vstd::prelude::*;
use vstd::string::StringExecFns;

use crate::manager::Filter;
use crate::module::{Module, ModuleCore, ModuleMetadata, ModuleSpec};

verus! {

/// A section of a module.
#[derive(PartialEq, Eq, Structural, Clone, Copy, Debug)]
pub enum InvalidModuleSection {
    Core,
    Metadata,
    Spec,
}

/// A module lacks a section that a plugin needs.
#[derive(PartialEq, Eq, Structural, Clone, Copy, Debug)]
pub struct InvalidModuleError {
    section: InvalidModuleSection,
}

/// The message of an error about `section`.
pub open spec fn invalid_section_message(section: InvalidModuleSection) -> Seq<char> {
    match section {
        InvalidModuleSection::Core => "module section 'Core' is invalid"@,
        InvalidModuleSection::Metadata => "module section 'Metadata' is invalid"@,
        InvalidModuleSection::Spec => "module section 'Spec' is invalid"@,
    }
}

impl InvalidModuleError {
    /// The section that is missing.
    pub closed spec fn missing(&self) -> InvalidModuleSection {
        self.section
    }

    /// An error about `section`.
    pub fn new(section: InvalidModuleSection) -> (r: InvalidModuleError)
        ensures
            r.missing() == section,
    {
        InvalidModuleError { section }
    }

    /// The section that is missing.
    pub fn section(&self) -> (r: InvalidModuleSection)
        ensures
            r == self.missing(),
    {
        self.section
    }

    /// What went wrong, in words.
    pub fn message(&self) -> (r: String)
        ensures
            r@ == invalid_section_message(self.missing()),
    {
        match self.section {
            InvalidModuleSection::Core => String::from_str("module section 'Core' is invalid"),
            InvalidModuleSection::Metadata => String::from_str(
                "module section 'Metadata' is invalid",
            ),
            InvalidModuleSection::Spec => String::from_str("module section 'Spec' is invalid"),
        }
    }
}

/// A plugin: the sections of its module, and the sender on which it talks
/// to its manager.
pub struct Sandbox<S> {
    info: ModuleCore,
    metadata: ModuleMetadata,
    config: ModuleSpec,
    sender: S,
}

impl<S> Sandbox<S> {
    /// Core of the plugin's module.
    pub closed spec fn identity(&self) -> ModuleCore {
        self.info
    }

    /// Metadata of the plugin's module.
    pub closed spec fn meta(&self) -> ModuleMetadata {
        self.metadata
    }

    /// Spec of the plugin's module.
    pub closed spec fn spec_section(&self) -> ModuleSpec {
        self.config
    }

    /// The sender to the manager.
    pub closed spec fn channel(&self) -> S {
        self.sender
    }

    /// The sections of a module; the first missing one, in the order core,
    /// metadata, spec, is an error.
    pub fn derive_from_module(module: Module) -> (r: Result<
        (ModuleCore, ModuleMetadata, ModuleSpec),
        InvalidModuleError,
    >)
        ensures
            module.core is None ==> r is Err && r->Err_0.missing() == InvalidModuleSection::Core,
            module.core is Some && module.metadata is None ==> r is Err && r->Err_0.missing()
                == InvalidModuleSection::Metadata,
            module.core is Some && module.metadata is Some && module.spec is None ==> r is Err
                && r->Err_0.missing() == InvalidModuleSection::Spec,
            module.core is Some && module.metadata is Some && module.spec is Some ==> r
                == Ok::<(ModuleCore, ModuleMetadata, ModuleSpec), InvalidModuleError>(
                (module.core->0, module.metadata->0, module.spec->0),
            ),
    {
        let core = match module.core {
            Some(c) => c,
            None => {
                return Err(InvalidModuleError::new(InvalidModuleSection::Core));
            },
        };
        let meta = match module.metadata {
            Some(m) => m,
            None => {
                return Err(InvalidModuleError::new(InvalidModuleSection::Metadata));
            },
        };
        let cfg = match module.spec {
            Some(s) => s,
            None => {
                return Err(InvalidModuleError::new(InvalidModuleSection::Spec));
            },
        };
        Ok((core, meta, cfg))
    }

    /// A plugin of a module that has all sections.
    pub fn new(module: Module, sender: S) -> (r: Result<Sandbox<S>, InvalidModuleError>)
        ensures
            module.core is None ==> r is Err && r->Err_0.missing() == InvalidModuleSection::Core,
            module.core is Some && module.metadata is None ==> r is Err && r->Err_0.missing()
                == InvalidModuleSection::Metadata,
            module.core is Some && module.metadata is Some && module.spec is None ==> r is Err
                && r->Err_0.missing() == InvalidModuleSection::Spec,
            module.core is Some && module.metadata is Some && module.spec is Some ==> r is Ok
                && r->Ok_0.identity() == module.core->0 && r->Ok_0.meta() == module.metadata->0
                && r->Ok_0.spec_section() == module.spec->0 && r->Ok_0.channel() == sender,
    {
        match Self::derive_from_module(module) {
            Ok((info, metadata, config)) => Ok(Sandbox { info, metadata, config, sender }),
            Err(e) => Err(e),
        }
    }

    /// Core of the plugin's module.
    pub fn info(&self) -> (r: &ModuleCore)
        ensures
            *r == self.identity(),
    {
        &self.info
    }

    /// Metadata of the plugin's module.
    pub fn metadata(&self) -> (r: &ModuleMetadata)
        ensures
            *r == self.meta(),
    {
        &self.metadata
    }

    /// Spec of the plugin's module.
    pub fn config(&self) -> (r: &ModuleSpec)
        ensures
            *r == self.spec_section(),
    {
        &self.config
    }

    /// The plugin's module, without status.
    pub fn to_module(self) -> (r: Module)
        ensures
            r.core == Some(self.identity()),
            r.metadata == Some(self.meta()),
            r.spec == Some(self.spec_section()),
            r.status is None,
    {
        Module {
            core: Some(self.info),
            metadata: Some(self.metadata),
            spec: Some(self.config),
            status: None,
        }
    }
}

/// A module held by a plugin store.
pub struct structure {
    config: Module,
}

impl structure {
    /// The module held.
    pub closed spec fn module(&self) -> Module {
        self.config
    }

    /// Holds `module`.
    pub fn new(module: Module) -> (r: structure)
        ensures
            r.module() == module,
    {
        structure { config: module }
    }
}

/// A request to a plugin manager.
pub enum CommandType {
    Apply(Module),
    Delete(ModuleCore),
    List(Filter),
    Get(ModuleCore),
    WatchData(Filter),
}

} // verus!
