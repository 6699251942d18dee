use hue::catalog::merge_catalogs;
use hue::target::Target;
use hue::ui::{classify_diff_line, diff, diff_in_colours, draw_theme_table, render_theme_table, theme_table_header, theme_table_rows, CellStyle, DiffLineKind};

fn catalog() -> hue::catalog::ThemeCatalog {
    merge_catalogs(&vec![
        (Target::Ghostty, vec![("nord".to_string(), "Nord".to_string()), ("dracula".to_string(), "Dracula".to_string())]),
        (Target::Zed, vec![("nord".to_string(), "Nord Zed".to_string())]),
    ])
}

#[test]
fn header_names_targets() {
    assert_eq!(theme_table_header(), vec!["theme", "ghostty", "helix", "zed"]);
}

#[test]
fn rows_mark_current_and_presence() {
    let rows = theme_table_rows(Some("nord"), &catalog());
    assert_eq!(rows.len(), 2);
    assert_eq!(rows[0][0].text, "dracula");
    assert_eq!(rows[1][0].text, "nord (current)");
    assert_eq!(rows[1][1].text, "\u{2713}");
    assert_eq!(rows[1][1].style, CellStyle::Green);
    assert_eq!(rows[1][2].text, "\u{2718}");
    assert_eq!(rows[1][2].style, CellStyle::Red);
    assert_eq!(rows[0][3].style, CellStyle::Red);
    let rows = theme_table_rows(None, &catalog());
    assert_eq!(rows[1][0].text, "nord");
}

#[test]
fn table_lists_every_theme() {
    let t = render_theme_table(Some("dracula"), &catalog());
    assert!(t.contains("dracula (current)"));
    assert!(t.contains("nord"));
    assert!(t.contains("ghostty"));
}

#[test]
fn diff_lines_are_classified() {
    assert_eq!(classify_diff_line("-a\n"), DiffLineKind::Removed);
    assert_eq!(classify_diff_line("+a\n"), DiffLineKind::Added);
    assert_eq!(classify_diff_line(" a\n"), DiffLineKind::Other);
    assert_eq!(classify_diff_line(""), DiffLineKind::Other);
}

#[test]
fn diff_shows_both_sides() {
    let d = diff("theme = Old\n", "theme = New\n", "/p/config");
    assert!(d.contains("theme = Old"));
    assert!(d.contains("theme = New"));
    assert!(d.contains("/p/config"));
    assert!(d.contains("@@"));
}

#[test]
fn diff_of_equal_texts_is_empty() {
    assert_eq!(diff("a\n", "a\n", "/p"), "");
}

#[test]
fn diff_colours_removed_red_and_added_green() {
    let d = diff("a\n", "b\n", "/p");
    let plain = "--- /p\n+++ /p\n@@ -1 +1 @@\n-a\n+b\n";
    let coloured = "\u{1b}[31m--- /p\n\u{1b}[0m\u{1b}[32m+++ /p\n\u{1b}[0m@@ -1 +1 @@\n\u{1b}[31m-a\n\u{1b}[0m\u{1b}[32m+b\n\u{1b}[0m";
    assert!(d == plain || d == coloured, "unexpected diff: {:?}", d);
}

#[test]
fn diff_in_colours_paints_every_changed_line_or_none() {
    let on = diff_in_colours("a\nkeep\n", "b\nkeep\n", "/p", true);
    assert_eq!(
        on,
        "\u{1b}[31m--- /p\n\u{1b}[0m\u{1b}[32m+++ /p\n\u{1b}[0m@@ -1,2 +1,2 @@\n\u{1b}[31m-a\n\u{1b}[0m\u{1b}[32m+b\n\u{1b}[0m keep\n"
    );
    let off = diff_in_colours("a\nkeep\n", "b\nkeep\n", "/p", false);
    assert_eq!(off, "--- /p\n+++ /p\n@@ -1,2 +1,2 @@\n-a\n+b\n keep\n");
}

#[test]
fn plain_table_has_no_colour_codes() {
    let t = draw_theme_table(Some("nord"), &catalog(), None, false);
    assert!(!t.contains('\u{1b}'));
    assert!(t.contains("nord (current)"));
    assert!(t.contains("dracula"));
    assert!(t.contains("\u{2713}"));
    assert!(t.contains("\u{2718}"));
    let narrow = draw_theme_table(None, &catalog(), Some(40), false);
    assert!(narrow.lines().all(|l| l.chars().count() <= 40));
}
