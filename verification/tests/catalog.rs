use hue::catalog::{find_theme, merge_catalogs, ThemeCatalog, ThemeMapping};
use hue::error::Error;
use hue::target::Target;

fn defs(pairs: &[(&str, &str)]) -> Vec<(String, String)> {
    pairs.iter().map(|(a, b)| (a.to_string(), b.to_string())).collect()
}

#[test]
fn merge_collects_targets_per_logical_theme() {
    let sources = vec![
        (Target::Ghostty, defs(&[("dracula", "Dracula"), ("nord", "Nord")])),
        (Target::Helix, defs(&[("dracula", "dracula")])),
        (Target::Zed, defs(&[("one", "One Dark")])),
    ];
    let catalog = merge_catalogs(&sources);
    assert_eq!(catalog.len(), 3);
    let (name, m) = catalog.entry(0);
    assert_eq!(name, "dracula");
    assert_eq!(m.ghostty.as_deref(), Some("Dracula"));
    assert_eq!(m.helix.as_deref(), Some("dracula"));
    assert_eq!(m.zed, None);
    let (name, m) = catalog.entry(1);
    assert_eq!(name, "nord");
    assert_eq!(m.ghostty.as_deref(), Some("Nord"));
    assert_eq!(m.helix, None);
    let (name, m) = catalog.entry(2);
    assert_eq!(name, "one");
    assert_eq!(m.zed.as_deref(), Some("One Dark"));
}

#[test]
fn merge_orders_names_like_a_btree_map() {
    let sources = vec![(Target::Ghostty, defs(&[("b", "1"), ("a", "2"), ("B", "3"), ("ab", "4")]))];
    let catalog = merge_catalogs(&sources);
    let names: Vec<&str> = (0..catalog.len()).map(|i| catalog.entry(i).0).collect();
    assert_eq!(names, vec!["B", "a", "ab", "b"]);
}

#[test]
fn later_definition_wins() {
    let sources = vec![
        (Target::Helix, defs(&[("x", "first")])),
        (Target::Ghostty, defs(&[("x", "g")])),
        (Target::Helix, defs(&[("x", "second")])),
    ];
    let catalog = merge_catalogs(&sources);
    let m = catalog.get("x").unwrap();
    assert_eq!(m.helix.as_deref(), Some("second"));
    assert_eq!(m.ghostty.as_deref(), Some("g"));
}

#[test]
fn empty_sources_give_empty_catalog() {
    let catalog = merge_catalogs(&Vec::new());
    assert_eq!(catalog.len(), 0);
    assert!(catalog.get("any").is_none());
}

#[test]
fn set_target_theme_adds_and_updates() {
    let mut catalog = ThemeCatalog::new();
    catalog.set_target_theme("z".to_string(), Target::Zed, "Z1".to_string());
    catalog.set_target_theme("a".to_string(), Target::Ghostty, "A".to_string());
    catalog.set_target_theme("z".to_string(), Target::Ghostty, "Z2".to_string());
    assert_eq!(catalog.len(), 2);
    assert_eq!(catalog.entry(0).0, "a");
    let z = catalog.get("z").unwrap();
    assert_eq!(z.zed.as_deref(), Some("Z1"));
    assert_eq!(z.ghostty.as_deref(), Some("Z2"));
}

#[test]
fn find_theme_reports_unknown_theme() {
    let catalog = merge_catalogs(&vec![(Target::Ghostty, defs(&[("nord", "Nord")]))]);
    assert!(find_theme(&catalog, "nord").is_ok());
    match find_theme(&catalog, "solarized") {
        Err(Error::UnknownTheme(t)) => assert_eq!(t, "solarized"),
        _ => panic!("expected UnknownTheme"),
    }
}

#[test]
fn mapped_theme_reads_the_target_field() {
    let m = ThemeMapping { ghostty: Some("G".to_string()), helix: None, zed: Some("Z".to_string()) };
    assert_eq!(Target::Ghostty.mapped_theme(&m), Some("G"));
    assert_eq!(Target::Helix.mapped_theme(&m), None);
    assert_eq!(Target::Zed.mapped_theme(&m), Some("Z"));
    let d = ThemeMapping::default();
    assert_eq!(Target::Ghostty.mapped_theme(&d), None);
}

#[test]
fn merging_targets_in_another_order_gives_the_same_catalog() {
    let g = (Target::Ghostty, defs(&[("dracula", "Dracula"), ("nord", "Nord")]));
    let h = (Target::Helix, defs(&[("dracula", "dracula"), ("zen", "zenburn")]));
    let z = (Target::Zed, defs(&[("nord", "Nord Zed")]));
    let a = merge_catalogs(&vec![g.clone(), h.clone(), z.clone()]);
    let b = merge_catalogs(&vec![z, g, h]);
    assert_eq!(a.len(), b.len());
    for i in 0..a.len() {
        assert_eq!(a.entry(i), b.entry(i));
    }
}
