//! Builder for configured engine instances: workspace root and load
//! configuration, separated from runtime operations.
//!
//! The external workspace loader consumes the assembled plan in the
//! application shell; everything decided here is plain data.

use vstd::prelude::*;

use crate::errors::EngineError;

verus! {

/// Cargo-facing configuration handed to the workspace loader.
#[derive(Debug, Clone, Copy, PartialEq, Eq, Structural)]
pub struct CargoSettings {
    /// Find the standard-library source automatically.
    pub sysroot_discover: bool,
    /// Include test, bench and example targets in the crate graph.
    pub all_targets: bool,
}

/// Load-time configuration handed to the workspace loader.
#[derive(Debug, Clone, Copy, PartialEq, Eq, Structural)]
pub struct LoadSettings {
    /// Reuse build-script outputs observed via a type-check invocation.
    pub load_out_dirs_from_check: bool,
    /// Delegate macro expansion to the sysroot-bundled helper.
    pub with_proc_macro_server: bool,
    /// Prime caches synchronously during load (the loader drives priming
    /// itself, so this stays off).
    pub prefill_caches: bool,
}

/// Everything the loader needs for one workspace.
pub struct WorkspacePlan {
    /// The workspace root directory.
    pub project_root: String,
    /// Cargo-facing configuration.
    pub cargo_config: CargoSettings,
    /// Load-time configuration.
    pub load_config: LoadSettings,
}

/// Builder for configured engine instances.
pub struct RustAnalyzerishBuilder {
    project_root: Option<String>,
    cargo_config: CargoSettings,
    load_config: LoadSettings,
}

impl RustAnalyzerishBuilder {
    /// The configured root, if any.
    pub closed spec fn root(self) -> Option<String> {
        self.project_root
    }

    /// The configured cargo settings.
    pub closed spec fn cargo(self) -> CargoSettings {
        self.cargo_config
    }

    /// The configured load settings.
    pub closed spec fn load(self) -> LoadSettings {
        self.load_config
    }

    /// A builder with the default configuration: sysroot discovery, all
    /// targets, build-script outputs from check, the proc-macro server,
    /// and manual cache priming.
    pub fn new() -> (r: RustAnalyzerishBuilder)
        ensures
            r.root() is None,
            r.cargo() == (CargoSettings { sysroot_discover: true, all_targets: true }),
            r.load() == (LoadSettings {
                load_out_dirs_from_check: true,
                with_proc_macro_server: true,
                prefill_caches: false,
            }),
    {
        RustAnalyzerishBuilder {
            project_root: None,
            cargo_config: CargoSettings { sysroot_discover: true, all_targets: true },
            load_config: LoadSettings {
                load_out_dirs_from_check: true,
                with_proc_macro_server: true,
                prefill_caches: false,
            },
        }
    }

    /// Set the workspace root directory.
    pub fn with_workspace(self, workspace_root: String) -> (r: RustAnalyzerishBuilder)
        ensures
            r.root() matches Some(p) && p@ == workspace_root@,
            r.cargo() == self.cargo(),
            r.load() == self.load(),
    {
        RustAnalyzerishBuilder {
            project_root: Some(workspace_root),
            cargo_config: self.cargo_config,
            load_config: self.load_config,
        }
    }

    /// Configure cargo settings.
    pub fn with_cargo_config(self, cargo_config: CargoSettings) -> (r: RustAnalyzerishBuilder)
        ensures
            r.root() == self.root(),
            r.cargo() == cargo_config,
            r.load() == self.load(),
    {
        RustAnalyzerishBuilder {
            project_root: self.project_root,
            cargo_config,
            load_config: self.load_config,
        }
    }

    /// Configure load settings.
    pub fn with_load_config(self, load_config: LoadSettings) -> (r: RustAnalyzerishBuilder)
        ensures
            r.root() == self.root(),
            r.cargo() == self.cargo(),
            r.load() == load_config,
    {
        RustAnalyzerishBuilder {
            project_root: self.project_root,
            cargo_config: self.cargo_config,
            load_config,
        }
    }

    /// Assemble the plan the workspace loader consumes.  Fails with
    /// `NoManifest` exactly when no workspace root was configured, the
    /// same condition under which discovery found nothing.
    pub fn build_plan(self) -> (r: Result<WorkspacePlan, EngineError>)
        ensures
            r is Ok <==> self.root() is Some,
            r matches Ok(p) ==> {
                &&& p.project_root@ == self.root()->Some_0@
                &&& p.cargo_config == self.cargo()
                &&& p.load_config == self.load()
            },
            r is Err ==> r == Result::<WorkspacePlan, EngineError>::Err(EngineError::NoManifest),
    {
        match self.project_root {
            Some(root) => Result::Ok(
                WorkspacePlan {
                    project_root: root,
                    cargo_config: self.cargo_config,
                    load_config: self.load_config,
                },
            ),
            None => Result::Err(EngineError::NoManifest),
        }
    }
}

} // verus!
