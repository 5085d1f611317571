use post_init::config::{
    default_cargo_template, default_skip_dirs, default_tauri_frontend, default_true, CargonewConfig, Config,
    TuarinewConfig, UvinitConfig,
};

#[test]
fn test_config_creation() {
    let config = Config::default();
    assert!(config.uvinit.enable_dynamic_version);
    assert!(config.uvinit.add_hatch_vcs);
    assert!(!config.uvinit.skip_dirs.is_empty());
}

#[test]
fn defaults_are_as_documented() {
    let u = UvinitConfig::default();
    assert_eq!(u.skip_dirs, default_skip_dirs());
    assert_eq!(
        default_skip_dirs(),
        vec![".git", ".venv", "venv", "__pycache__", ".pytest_cache", "node_modules", ".tox", "build", "dist", ".eggs", "target"]
    );
    assert!(u.additional_requires.is_empty());
    assert!(u.enable_pytest_asyncio && u.enable_bandit);
    assert!(default_true());
    assert_eq!(default_cargo_template(), "bin");
    assert_eq!(default_tauri_frontend(), "vanilla");
    let c = CargonewConfig::default();
    assert_eq!(c.default_template, "bin");
    assert!(c.init_git);
    let t = TuarinewConfig::default();
    assert_eq!(t.default_frontend, "vanilla");
    assert!(t.use_typescript);
}
