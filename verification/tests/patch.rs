use hue::error::Error;
use hue::target::{patch_ghostty, patch_helix, patch_zed, zed_theme_value, Target};
use jsonc_parser::cst::{CstObject, CstRootNode};
use jsonc_parser::ParseOptions;

fn parse_root_object(contents: &str) -> CstObject {
    CstRootNode::parse(contents, &ParseOptions::default())
        .unwrap()
        .value()
        .unwrap()
        .as_object()
        .unwrap()
}

fn object_string_prop(obj: &CstObject, name: &str) -> String {
    obj.get(name)
        .and_then(|prop| prop.value())
        .and_then(|value| value.as_string_lit())
        .and_then(|value| value.decoded_value().ok())
        .unwrap()
}

#[test]
fn ghostty_theme_is_replaced() {
    let input = "theme = Old Theme\nfont-size = 16\n";
    let output = patch_ghostty(input, "New Theme");

    assert!(output.contains("theme = New Theme"));
    assert!(output.contains("font-size = 16"));
}

#[test]
fn ghostty_theme_is_appended_if_missing() {
    let input = "font-size = 16\n";
    let output = patch_ghostty(input, "New Theme");

    assert!(output.ends_with("theme = New Theme\n"));
}

#[test]
fn zed_theme_object_is_replaced() {
    let input = r#"{
                        "theme": {
                            "dark": "Old",
                            "light": "Old",
                            "mode": "system"
                        },
                        "vim_mode": true,
                    }"#;
    let output = patch_zed(input, "New").unwrap();
    let root = parse_root_object(&output);
    let theme = root
        .get("theme")
        .and_then(|prop| prop.value())
        .and_then(|value| value.as_object())
        .unwrap();

    assert_eq!(object_string_prop(&theme, "dark"), "New");
    assert_eq!(object_string_prop(&theme, "light"), "New");
    assert_eq!(object_string_prop(&theme, "mode"), "dark");
    assert!(root.get("vim_mode").is_some());
}

#[test]
fn zed_theme_object_is_inserted_if_missing() {
    let input = r#"{
                        "vim_mode": false,
                    }"#;
    let output = patch_zed(input, "New").unwrap();
    let root = parse_root_object(&output);
    let theme = root
        .get("theme")
        .and_then(|prop| prop.value())
        .and_then(|value| value.as_object())
        .unwrap();

    assert_eq!(object_string_prop(&theme, "dark"), "New");
    assert_eq!(object_string_prop(&theme, "light"), "New");
    assert_eq!(object_string_prop(&theme, "mode"), "dark");
    assert!(root.get("vim_mode").is_some());
}

#[test]
fn ghostty_replacement_is_exact() {
    let input = "# theme = commented\nfont-size = 16\n  theme=Old\ntheme = Second\n";
    let output = patch_ghostty(input, "New");
    assert_eq!(output, "# theme = commented\nfont-size = 16\ntheme = New\ntheme = Second\n");
}

#[test]
fn ghostty_keys_that_only_start_with_theme_are_kept() {
    let input = "theme-dark = x\nthemes = y";
    let output = patch_ghostty(input, "New");
    assert_eq!(output, "theme-dark = x\nthemes = y\ntheme = New\n");
}

#[test]
fn ghostty_empty_file_gets_a_theme_line() {
    assert_eq!(patch_ghostty("", "Dracula"), "theme = Dracula\n");
}

#[test]
fn ghostty_crlf_line_endings_become_newlines() {
    let input = "font-size = 16\r\ntheme = Old\r\n";
    assert_eq!(patch_ghostty(input, "New"), "font-size = 16\ntheme = New\n");
}

#[test]
fn ghostty_patch_twice_is_patch_once() {
    let input = "a = 1\n\ntheme = x\nb = 2";
    let once = patch_ghostty(input, "Nord");
    let twice = patch_ghostty(&once, "Nord");
    assert_eq!(once, twice);
    assert_eq!(once, "a = 1\n\ntheme = Nord\nb = 2\n");
}

#[test]
fn helix_theme_is_quoted() {
    let input = "theme = \"old\"\n[editor]\nline-number = \"relative\"\n";
    assert_eq!(
        patch_helix(input, "catppuccin"),
        "theme = \"catppuccin\"\n[editor]\nline-number = \"relative\"\n"
    );
}

#[test]
fn helix_theme_goes_before_the_first_table() {
    assert_eq!(patch_helix("[editor]", "gruvbox"), "theme = \"gruvbox\"\n[editor]\n");
    assert_eq!(
        patch_helix("[editor]\nline-number = \"relative\"\n", "onedark"),
        "theme = \"onedark\"\n[editor]\nline-number = \"relative\"\n"
    );
    assert_eq!(patch_helix("# mine\n\n[keys]\n", "x"), "# mine\n\ntheme = \"x\"\n[keys]\n");
}

#[test]
fn helix_theme_inside_a_table_is_not_the_top_level_theme() {
    assert_eq!(
        patch_helix("[editor]\ntheme = \"a\"\n", "b"),
        "theme = \"b\"\n[editor]\ntheme = \"a\"\n"
    );
    assert_eq!(
        patch_helix("theme = \"a\"\n[editor]\ntheme = \"c\"\n", "b"),
        "theme = \"b\"\n[editor]\ntheme = \"c\"\n"
    );
}

#[test]
fn helix_without_tables_appends() {
    assert_eq!(patch_helix("a = 1", "b"), "a = 1\ntheme = \"b\"\n");
    let once = patch_helix("[editor]\nx = 1\n", "t");
    assert_eq!(patch_helix(&once, "t"), once);
}

#[test]
fn helix_whitespace_around_key_is_recognised() {
    assert_eq!(patch_helix("\t theme\t= \"a\"  \n", "b"), "theme = \"b\"\n");
}

#[test]
fn zed_invalid_jsonc_is_refused() {
    match patch_zed("{ \"theme\": ", "New") {
        Err(Error::UnsupportedLayout { app, reason }) => {
            assert_eq!(app, Target::Zed);
            assert!(reason.starts_with("invalid JSONC: "));
            assert!(reason.len() > "invalid JSONC: ".len());
        }
        _ => panic!("expected an unsupported layout"),
    }
}

#[test]
fn zed_root_that_is_no_object_is_refused() {
    match patch_zed("[]", "X") {
        Err(e) => assert_eq!(e.message(), "unsupported zed config layout: settings root is not an object"),
        _ => panic!("expected an unsupported layout"),
    }
    match patch_zed("[1, 2]", "New") {
        Err(Error::UnsupportedLayout { app, reason }) => {
            assert_eq!(app, Target::Zed);
            assert_eq!(reason, "settings root is not an object");
        }
        _ => panic!("expected an unsupported layout"),
    }
}

#[test]
fn zed_comments_are_kept() {
    let input = "{\n  // my font\n  \"buffer_font_size\": 15\n}\n";
    let output = patch_zed(input, "One Dark").unwrap();
    assert!(output.contains("// my font"));
    let root = parse_root_object(&output);
    let theme = root.get("theme").and_then(|p| p.value()).and_then(|v| v.as_object()).unwrap();
    assert_eq!(object_string_prop(&theme, "dark"), "One Dark");
}

#[test]
fn zed_theme_value_entries() {
    let v = zed_theme_value("X");
    assert_eq!(
        v,
        vec![
            ("dark".to_string(), "X".to_string()),
            ("light".to_string(), "X".to_string()),
            ("mode".to_string(), "dark".to_string())
        ]
    );
}

#[test]
fn apply_theme_dispatches_by_target() {
    assert_eq!(Target::Ghostty.apply_theme("", "a").unwrap(), "theme = a\n");
    assert_eq!(Target::Helix.apply_theme("", "a").unwrap(), "theme = \"a\"\n");
    let zed = Target::Zed.apply_theme("{}", "a").unwrap();
    assert!(zed.contains("\"dark\""));
}
