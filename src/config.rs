//! Settings: which directories the walk skips and which edits the
//! transformer makes, with their defaults.

use vstd::prelude::*;

verus! {

/// All settings, one section per command.
#[derive(Clone, Debug, PartialEq, Eq)]
pub struct Config {
    pub uvinit: UvinitConfig,
    pub cargonew: CargonewConfig,
    pub tuarinew: TuarinewConfig,
}

/// Settings of the manifest walk and transformation.
#[derive(Clone, Debug, PartialEq, Eq)]
pub struct UvinitConfig {
    /// Names of the directories that the walk does not enter.
    pub skip_dirs: Vec<String>,
    /// Whether `hatch-vcs` is added to `build-system.requires`.
    pub add_hatch_vcs: bool,
    /// Whether `project.version` gives way to `dynamic = ["version"]`, with
    /// the version taken from version control.
    pub enable_dynamic_version: bool,
    /// Further entries for `build-system.requires`.
    pub additional_requires: Vec<String>,
    /// Whether `tool.pytest.ini_options.asyncio_mode` is set to `auto`.
    pub enable_pytest_asyncio: bool,
    /// Whether `tool.bandit` gets its default `skips` and `exclude_dirs`.
    pub enable_bandit: bool,
}

/// Settings of new Cargo projects.
#[derive(Clone, Debug, PartialEq, Eq)]
pub struct CargonewConfig {
    /// Default template for new Cargo projects.
    pub default_template: String,
    /// Whether a git repository is initialised.
    pub init_git: bool,
}

/// Settings of new Tauri projects.
#[derive(Clone, Debug, PartialEq, Eq)]
pub struct TuarinewConfig {
    /// Default frontend framework.
    pub default_frontend: String,
    /// Whether TypeScript is used.
    pub use_typescript: bool,
}

/// The directory names that the walk skips unless told otherwise.
pub open spec fn default_skip_dir_names() -> Seq<Seq<char>> {
    seq![
        ".git"@,
        ".venv"@,
        "venv"@,
        "__pycache__"@,
        ".pytest_cache"@,
        "node_modules"@,
        ".tox"@,
        "build"@,
        "dist"@,
        ".eggs"@,
        "target"@,
    ]
}

/// The characters of each string of a vector.
pub open spec fn string_views(v: Seq<String>) -> Seq<Seq<char>> {
    v.map_values(|s: String| s@)
}

impl Default for UvinitConfig {
    fn default() -> (r: Self)
        ensures
            string_views(r.skip_dirs@) == default_skip_dir_names(),
            r.add_hatch_vcs,
            r.enable_dynamic_version,
            r.additional_requires@.len() == 0,
            r.enable_pytest_asyncio,
            r.enable_bandit,
    {
        UvinitConfig {
            skip_dirs: default_skip_dirs(),
            add_hatch_vcs: true,
            enable_dynamic_version: true,
            additional_requires: Vec::new(),
            enable_pytest_asyncio: true,
            enable_bandit: true,
        }
    }
}

impl Default for CargonewConfig {
    fn default() -> (r: Self)
        ensures
            r.default_template@ == "bin"@,
            r.init_git,
    {
        CargonewConfig { default_template: default_cargo_template(), init_git: true }
    }
}

impl Default for TuarinewConfig {
    fn default() -> (r: Self)
        ensures
            r.default_frontend@ == "vanilla"@,
            r.use_typescript,
    {
        TuarinewConfig { default_frontend: default_tauri_frontend(), use_typescript: true }
    }
}

impl Default for Config {
    fn default() -> (r: Self)
        ensures
            string_views(r.uvinit.skip_dirs@) == default_skip_dir_names(),
            r.uvinit.add_hatch_vcs,
            r.uvinit.enable_dynamic_version,
            r.uvinit.additional_requires@.len() == 0,
            r.uvinit.enable_pytest_asyncio,
            r.uvinit.enable_bandit,
            r.cargonew.default_template@ == "bin"@,
            r.cargonew.init_git,
            r.tuarinew.default_frontend@ == "vanilla"@,
            r.tuarinew.use_typescript,
    {
        Config {
            uvinit: UvinitConfig::default(),
            cargonew: CargonewConfig::default(),
            tuarinew: TuarinewConfig::default(),
        }
    }
}

/// The directory names that the walk skips by default.
pub fn default_skip_dirs() -> (r: Vec<String>)
    ensures
        string_views(r@) == default_skip_dir_names(),
{
    let mut v: Vec<String> = Vec::new();
    v.push(".git".to_owned());
    v.push(".venv".to_owned());
    v.push("venv".to_owned());
    v.push("__pycache__".to_owned());
    v.push(".pytest_cache".to_owned());
    v.push("node_modules".to_owned());
    v.push(".tox".to_owned());
    v.push("build".to_owned());
    v.push("dist".to_owned());
    v.push(".eggs".to_owned());
    v.push("target".to_owned());
    assert(string_views(v@) =~= default_skip_dir_names());
    v
}

/// The default of every flag that is on unless turned off.
pub fn default_true() -> (r: bool)
    ensures
        r,
{
    true
}

/// The default template of new Cargo projects.
pub fn default_cargo_template() -> (r: String)
    ensures
        r@ == "bin"@,
{
    "bin".to_owned()
}

/// The default frontend of new Tauri projects.
pub fn default_tauri_frontend() -> (r: String)
    ensures
        r@ == "vanilla"@,
{
    "vanilla".to_owned()
}

} // verus!
