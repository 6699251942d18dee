use hue::config::{path_join, Config, Paths};
use hue::error::Error;
use hue::target::Target;

#[test]
fn paths_lie_under_the_home_directory() {
    let p = Paths::from_home("/home/me".to_string());
    assert_eq!(p.home, "/home/me");
    assert_eq!(p.root, "/home/me/.config/hue");
    assert_eq!(p.config, "/home/me/.config/hue/config.toml");
    assert_eq!(p.catalog, "/home/me/.config/hue/themes.toml");
    assert_eq!(p.themes_dir, "/home/me/.config/hue/themes");
}

#[test]
fn path_join_adds_one_separator() {
    assert_eq!(path_join("/a/", "b"), "/a/b");
    assert_eq!(path_join("/a", "b"), "/a/b");
    assert_eq!(path_join("", "b"), "b");
}

#[test]
fn target_paths() {
    let p = Paths::from_home("/h".to_string());
    assert_eq!(Target::Ghostty.config_path(&p), "/h/.config/ghostty/config");
    assert_eq!(Target::Helix.config_path(&p), "/h/.config/helix/config.toml");
    assert_eq!(Target::Zed.config_path(&p), "/h/.config/zed/settings.json");
    assert_eq!(Target::Helix.catalog_path(&p), "/h/.config/hue/themes/helix.toml");
}

#[test]
fn labels_and_order() {
    let labels: Vec<&str> = Target::ALL.iter().map(|t| t.label()).collect();
    assert_eq!(labels, vec!["ghostty", "helix", "zed"]);
}

fn bundled_definitions(target: Target) -> Vec<(String, String)> {
    let table: toml::Table = toml::from_str(target.catalog()).unwrap();
    table
        .iter()
        .map(|(logical, def)| (logical.clone(), def.get("name").unwrap().as_str().unwrap().to_string()))
        .collect()
}

#[test]
fn bundled_catalogs_parse_and_cover_every_target() {
    let sources: Vec<(Target, Vec<(String, String)>)> =
        Target::ALL.iter().map(|t| (*t, bundled_definitions(*t))).collect();
    for (_, defs) in &sources {
        assert_eq!(defs.len(), 9);
    }
    let catalog = hue::catalog::merge_catalogs(&sources);
    assert_eq!(catalog.len(), 9);
    for i in 0..catalog.len() {
        let (_, m) = catalog.entry(i);
        assert!(m.ghostty.is_some() && m.helix.is_some() && m.zed.is_some());
    }
    let m = catalog.get("gruvbox-dark").unwrap();
    assert_eq!(m.ghostty.as_deref(), Some("Gruvbox Dark"));
    assert_eq!(m.helix.as_deref(), Some("gruvbox"));
    assert_eq!(m.zed.as_deref(), Some("Gruvbox Dark"));
    assert!(Target::Helix.catalog().starts_with("[ayu-dark]\nname = \"ayu_dark\"\n"));
}

#[test]
fn paths_need_a_home_directory() {
    let p = Paths::from_home_directory(Some("/home/me".to_string())).unwrap();
    assert_eq!(p.config, "/home/me/.config/hue/config.toml");
    assert_eq!(p.themes_dir, "/home/me/.config/hue/themes");
    assert!(matches!(Paths::from_home_directory(None), Err(Error::HomeDirectoryUnknown)));
}

#[test]
fn current_theme_is_missing_by_default() {
    let c = Config::default();
    assert!(matches!(c.current(), Err(Error::MissingCurrentTheme)));
}

#[test]
fn recorded_theme_reads_back() {
    let mut c = Config::default();
    assert!(c.record_theme("nord".to_string(), false));
    assert_eq!(c.current().unwrap(), "nord");
    assert!(!c.record_theme("dracula".to_string(), true));
    assert_eq!(c.current().unwrap(), "nord");
}

#[test]
fn error_messages() {
    assert_eq!(Error::UnknownTheme("x".to_string()).message(), "theme `x` is not configured");
    assert_eq!(Error::MissingCurrentTheme.message(), "no theme set. Run `hue set <theme>` first");
    assert_eq!(
        Error::NoSupportedTargets("x".to_string()).message(),
        "theme `x` does not map to any supported targets"
    );
    assert_eq!(
        Error::MissingTarget { app: Target::Helix, path: "/p".to_string() }.message(),
        "missing target config for helix at /p"
    );
    assert_eq!(
        Error::UnsupportedLayout { app: Target::Zed, reason: "r".to_string() }.message(),
        "unsupported zed config layout: r"
    );
    assert_eq!(Error::HomeDirectoryUnknown.message(), "could not determine the user home directory");
}

#[test]
fn paths_from_the_environment_follow_the_home_directory() {
    match Paths::new() {
        Ok(p) => {
            assert!(p.root.starts_with(&p.home));
            assert!(p.root.ends_with(".config/hue"));
            assert!(p.config.ends_with(".config/hue/config.toml"));
        }
        Err(e) => assert!(matches!(e, Error::HomeDirectoryUnknown)),
    }
}
