//! Configuration records: cache, external-dependency, root-module and rule
//! settings, with their defaults.
use vstd::prelude::*;

verus! {

/// The tag that stands for the project's root module.
pub const ROOT_MODULE_SENTINEL_TAG: &'static str = "<root>";

/// Where results are cached.
#[derive(Debug, Clone, Copy, PartialEq, Eq, Structural)]
pub enum CacheBackend {
    Disk,
}

impl CacheBackend {
    /// The setting's name as written in configuration.
    pub fn as_str(&self) -> (r: &'static str)
        ensures
            r@ == "disk"@,
    {
        match self {
            CacheBackend::Disk => "disk",
        }
    }
}

impl Default for CacheBackend {
    fn default() -> (r: Self)
        ensures
            r == CacheBackend::Disk,
    {
        CacheBackend::Disk
    }
}

/// Cache settings.
#[derive(Debug, Clone)]
pub struct CacheConfig {
    pub backend: CacheBackend,
    pub file_dependencies: Vec<String>,
    pub env_dependencies: Vec<String>,
}

impl Default for CacheConfig {
    fn default() -> (r: Self)
        ensures
            r.backend == CacheBackend::Disk,
            r.file_dependencies@.len() == 0,
            r.env_dependencies@.len() == 0,
    {
        CacheConfig {
            backend: CacheBackend::Disk,
            file_dependencies: Vec::new(),
            env_dependencies: Vec::new(),
        }
    }
}

/// Settings for checking external dependencies.
#[derive(Debug, Clone)]
pub struct ExternalDependencyConfig {
    pub exclude: Vec<String>,
    pub rename: Vec<String>,
    pub include_dependency_groups: bool,
}

impl Default for ExternalDependencyConfig {
    fn default() -> (r: Self)
        ensures
            r.exclude@.len() == 0,
            r.rename@.len() == 0,
            !r.include_dependency_groups,
    {
        ExternalDependencyConfig {
            exclude: Vec::new(),
            rename: Vec::new(),
            include_dependency_groups: false,
        }
    }
}

/// How imports of the root module are treated.
#[derive(Debug, Clone, Copy, PartialEq, Eq, Structural)]
pub enum RootModuleTreatment {
    Allow,
    Forbid,
    Ignore,
    DependenciesOnly,
}

impl RootModuleTreatment {
    /// The setting's name as written in configuration.
    pub fn as_str(&self) -> (r: &'static str)
        ensures
            *self == RootModuleTreatment::Allow ==> r@ == "allow"@,
            *self == RootModuleTreatment::Forbid ==> r@ == "forbid"@,
            *self == RootModuleTreatment::Ignore ==> r@ == "ignore"@,
            *self == RootModuleTreatment::DependenciesOnly ==> r@ == "dependenciesonly"@,
    {
        match self {
            RootModuleTreatment::Allow => "allow",
            RootModuleTreatment::Forbid => "forbid",
            RootModuleTreatment::Ignore => "ignore",
            RootModuleTreatment::DependenciesOnly => "dependenciesonly",
        }
    }
}

impl Default for RootModuleTreatment {
    fn default() -> (r: Self)
        ensures
            r == RootModuleTreatment::Ignore,
    {
        RootModuleTreatment::Ignore
    }
}

/// The severity of a rule.
#[derive(Debug, Clone, Copy, PartialEq, Eq, Structural)]
pub enum RuleSetting {
    Error,
    Warn,
    Off,
}

impl RuleSetting {
    pub fn warn() -> (r: Self)
        ensures
            r == RuleSetting::Warn,
    {
        RuleSetting::Warn
    }

    pub fn is_warn(&self) -> (r: bool)
        ensures
            r == (*self == RuleSetting::Warn),
    {
        matches!(self, RuleSetting::Warn)
    }

    pub fn error() -> (r: Self)
        ensures
            r == RuleSetting::Error,
    {
        RuleSetting::Error
    }

    pub fn is_error(&self) -> (r: bool)
        ensures
            r == (*self == RuleSetting::Error),
    {
        matches!(self, RuleSetting::Error)
    }

    pub fn off() -> (r: Self)
        ensures
            r == RuleSetting::Off,
    {
        RuleSetting::Off
    }

    pub fn is_off(&self) -> (r: bool)
        ensures
            r == (*self == RuleSetting::Off),
    {
        matches!(self, RuleSetting::Off)
    }

    /// The setting's name as written in configuration.
    pub fn as_str(&self) -> (r: &'static str)
        ensures
            *self == RuleSetting::Error ==> r@ == "error"@,
            *self == RuleSetting::Warn ==> r@ == "warn"@,
            *self == RuleSetting::Off ==> r@ == "off"@,
    {
        match self {
            RuleSetting::Error => "error",
            RuleSetting::Warn => "warn",
            RuleSetting::Off => "off",
        }
    }
}

/// Severities of the configurable rules.
#[derive(Debug, Clone, Copy, PartialEq, Eq, Structural)]
pub struct RulesConfig {
    pub unused_ignore_directives: RuleSetting,
    pub require_ignore_directive_reasons: RuleSetting,
    pub unused_external_dependencies: RuleSetting,
    pub local_imports: RuleSetting,
}

impl Default for RulesConfig {
    fn default() -> (r: Self)
        ensures
            r.unused_ignore_directives == RuleSetting::Warn,
            r.require_ignore_directive_reasons == RuleSetting::Off,
            r.unused_external_dependencies == RuleSetting::Error,
            r.local_imports == RuleSetting::Error,
    {
        RulesConfig {
            unused_ignore_directives: RuleSetting::warn(),
            require_ignore_directive_reasons: RuleSetting::off(),
            unused_external_dependencies: RuleSetting::error(),
            local_imports: RuleSetting::error(),
        }
    }
}

} // verus!
