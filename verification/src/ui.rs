//! What hue shows: the table of themes and the difference a patch makes.
use vstd::prelude::*;

use comfy_table::{Cell, Color, ContentArrangement, Table};

use crate::catalog::{model_theme, sorted_entries, EntryModel, ThemeCatalog};
use crate::text::concat;
use crate::target::Target;
use crate::text::{chars_equal, chars_of, concat_all, ranges_match, split_inclusive, split_inclusive_ranges};

verus! {

broadcast use vstd::string::group_string_axioms;

/// How a table cell is coloured.
#[derive(Clone, Copy, Debug, PartialEq, Eq, Structural)]
pub enum CellStyle {
    Plain,
    Green,
    Red,
}

/// The text of a table cell and its colour.
pub struct TableCell {
    pub text: String,
    pub style: CellStyle,
}

impl TableCell {
    pub open spec fn model(&self) -> (Seq<char>, CellStyle) {
        (self.text@, self.style)
    }
}

/// The heading of the table of themes: `theme`, then each target's name.
pub open spec fn header_text() -> Seq<Seq<char>> {
    seq!["theme"@, "ghostty"@, "helix"@, "zed"@]
}

/// The name shown for a logical theme: marked ` (current)` when it is the
/// current theme.
pub open spec fn name_cell(current: Option<Seq<char>>, name: Seq<char>) -> Seq<char> {
    if current == Some(name) {
        name + " (current)"@
    } else {
        name
    }
}

/// Whether a logical theme names a theme for `target`: a green tick, or a
/// red cross.
pub open spec fn marker_cell(m: crate::catalog::MappingModel, target: Target) -> (Seq<char>, CellStyle) {
    if model_theme(m, target) is Some {
        ("\u{2713}"@, CellStyle::Green)
    } else {
        ("\u{2718}"@, CellStyle::Red)
    }
}

/// The row of the table of themes for one logical theme.
pub open spec fn row_text(current: Option<Seq<char>>, e: EntryModel) -> Seq<(Seq<char>, CellStyle)> {
    seq![
        (name_cell(current, e.0), CellStyle::Plain),
        marker_cell(e.1, Target::Ghostty),
        marker_cell(e.1, Target::Helix),
        marker_cell(e.1, Target::Zed),
    ]
}

pub open spec fn opt_str_view(o: Option<&str>) -> Option<Seq<char>> {
    match o {
        Some(s) => Some(s@),
        None => None,
    }
}

/// The heading of the table of themes.
pub fn theme_table_header() -> (h: Vec<String>)
    ensures
        h@.map_values(|s: String| s@) == header_text(),
{
    let mut h: Vec<String> = Vec::new();
    h.push(String::from_str("theme"));
    h.push(String::from_str(Target::Ghostty.label()));
    h.push(String::from_str(Target::Helix.label()));
    h.push(String::from_str(Target::Zed.label()));
    assert(h@.map_values(|s: String| s@) =~= header_text());
    h
}

fn marker(mapping: &crate::catalog::ThemeMapping, target: Target) -> (c: TableCell)
    ensures
        c.model() == marker_cell(mapping@, target),
{
    if target.mapped_theme(mapping).is_some() {
        TableCell { text: String::from_str("\u{2713}"), style: CellStyle::Green }
    } else {
        TableCell { text: String::from_str("\u{2718}"), style: CellStyle::Red }
    }
}

/// The rows of the table of themes, one per logical theme in name order:
/// its name, marked when it is `current`, then for each target whether it
/// names a theme there.
pub fn theme_table_rows(current: Option<&str>, catalog: &ThemeCatalog) -> (rows: Vec<Vec<TableCell>>)
    ensures
        rows@.len() == catalog@.len(),
        forall|i: int|
            0 <= i < rows@.len() ==> (#[trigger] rows@[i])@.map_values(|c: TableCell| c.model())
                == row_text(opt_str_view(current), catalog@[i]),
{
    let n = catalog.len();
    let cur = match current {
        Some(c) => Some(chars_of(c)),
        None => None,
    };
    let mut rows: Vec<Vec<TableCell>> = Vec::new();
    let mut i: usize = 0;
    while i < n
        invariant
            n == catalog@.len(),
            i <= n,
            rows@.len() == i,
            match cur {
                Some(c) => opt_str_view(current) == Some(c@),
                None => current is None,
            },
            forall|j: int|
                0 <= j < i ==> (#[trigger] rows@[j])@.map_values(|c: TableCell| c.model())
                    == row_text(opt_str_view(current), catalog@[j]),
        decreases n - i,
    {
        let (name, mapping) = catalog.entry(i);
        let is_current = match &cur {
            Some(c) => chars_equal(c, &chars_of(name)),
            None => false,
        };
        let text = if is_current {
            concat(name, " (current)")
        } else {
            String::from_str(name)
        };
        let mut row: Vec<TableCell> = Vec::new();
        row.push(TableCell { text, style: CellStyle::Plain });
        row.push(marker(mapping, Target::Ghostty));
        row.push(marker(mapping, Target::Helix));
        row.push(marker(mapping, Target::Zed));
        assert(row@.map_values(|c: TableCell| c.model()) =~= row_text(opt_str_view(current), catalog@[i as int]));
        rows.push(row);
        i = i + 1;
    }
    rows
}

/// The rows of the table of themes as the contracts see them.
pub open spec fn rows_text(current: Option<Seq<char>>, entries: Seq<EntryModel>) -> Seq<Seq<(Seq<char>, CellStyle)>> {
    entries.map_values(|e: EntryModel| row_text(current, e))
}

pub open spec fn cells_view(rows: Seq<Vec<TableCell>>) -> Seq<Seq<(Seq<char>, CellStyle)>> {
    rows.map_values(|r: Vec<TableCell>| r@.map_values(|c: TableCell| c.model()))
}

/// What `comfy_table` draws for a table with the UTF-8 full preset, content
/// arranged to `width` (none: no limit), the heading `header` and the rows
/// `rows`, each cell with its text in its colour; colours are written only
/// when `styled`, and then without their codes when `codes_off` (crossterm
/// drops colour codes when the environment sets `NO_COLOR`).
pub uninterp spec fn drawn_table(
    header: Seq<Seq<char>>,
    rows: Seq<Seq<(Seq<char>, CellStyle)>>,
    width: Option<u16>,
    styled: bool,
    codes_off: bool,
) -> Seq<char>;

/// The width and the styling that a `comfy_table::Table` finds in the
/// terminal: `Table::width` (the terminal's width when output goes to one)
/// and `Table::should_style`. Nothing is claimed: they depend on the
/// terminal and the environment.
#[verifier::external_body]
fn table_environment() -> (r: (Option<u16>, bool)) {
    let table = Table::new();
    (table.width(), table.should_style())
}

/// Draws a table with `comfy_table`: the UTF-8 full preset, content
/// arranged dynamically, `header` as the heading and one row per entry of
/// `rows`, each cell with its text in its colour; the terminal is not
/// consulted: the width is `width` when given, and colours are written
/// exactly when `styled`. Claimed: the text is the drawing of these
/// arguments (`drawn_table`), with crossterm's colour codes kept or, when
/// the environment turns them off, dropped; which of the two is left open.
#[verifier::external_body]
fn draw_table(header: &Vec<String>, rows: &Vec<Vec<TableCell>>, width: Option<u16>, styled: bool) -> (r: String)
    ensures
        r@ == drawn_table(header@.map_values(|s: String| s@), cells_view(rows@), width, styled, false)
            || r@ == drawn_table(header@.map_values(|s: String| s@), cells_view(rows@), width, styled, true),
{
    let mut table = Table::new();
    table.load_preset(comfy_table::presets::UTF8_FULL).set_content_arrangement(ContentArrangement::Dynamic).set_header(header.clone()).force_no_tty();
    if let Some(w) = width { table.set_width(w); }
    if styled { table.enforce_styling(); }
    for row in rows {
        table.add_row(row.iter().map(|c| match c.style {
            CellStyle::Plain => Cell::new(&c.text),
            CellStyle::Green => Cell::new(&c.text).fg(Color::Green),
            CellStyle::Red => Cell::new(&c.text).fg(Color::Red),
        }).collect::<Vec<Cell>>());
    }
    table.to_string()
}

/// The table of themes drawn `width` wide (none: no limit), in colour when
/// `styled`: its heading and rows are those of `theme_table_header` and
/// `theme_table_rows`.
pub fn draw_theme_table(current: Option<&str>, catalog: &ThemeCatalog, width: Option<u16>, styled: bool) -> (r: String)
    ensures
        r@ == drawn_table(header_text(), rows_text(opt_str_view(current), catalog@), width, styled, false)
            || r@ == drawn_table(header_text(), rows_text(opt_str_view(current), catalog@), width, styled, true),
{
    let header = theme_table_header();
    let rows = theme_table_rows(current, catalog);
    assert(cells_view(rows@) =~= rows_text(opt_str_view(current), catalog@));
    draw_table(&header, &rows, width, styled)
}

/// The table of themes, drawn for the terminal (see `draw_theme_table`):
/// its width and colouring are what the terminal allows.
pub fn render_theme_table(current: Option<&str>, catalog: &ThemeCatalog) -> (r: String)
    ensures
        exists|width: Option<u16>, styled: bool, codes_off: bool|
            r@ == #[trigger] drawn_table(
                header_text(),
                rows_text(opt_str_view(current), catalog@),
                width,
                styled,
                codes_off,
            ),
{
    let (width, styled) = table_environment();
    draw_theme_table(current, catalog, width, styled)
}

/// Law: in the table of themes, a row is marked current exactly when its
/// logical theme is the current one, so at most one row is marked.
pub proof fn law_one_current_row(current: Option<Seq<char>>, entries: Seq<EntryModel>, i: int, j: int)
    requires
        sorted_entries(entries),
        0 <= i < entries.len(),
        0 <= j < entries.len(),
    ensures
        (name_cell(current, entries[i].0) != entries[i].0) == (current == Some(entries[i].0)),
        current == Some(entries[i].0) && current == Some(entries[j].0) ==> i == j,
{
    if current == Some(entries[i].0) {
        assert((entries[i].0 + " (current)"@).len() > entries[i].0.len()) by {
            reveal_strlit(" (current)");
        }
    }
    if i < j {
        crate::text::lemma_str_lt_irreflexive(entries[i].0);
    } else if j < i {
        crate::text::lemma_str_lt_irreflexive(entries[j].0);
    }
}


/// What `similar` gives for the unified diff of `original` and `updated`
/// line by line, with three lines of context and `header` naming both
/// sides.
pub uninterp spec fn unified_diff_text(original: Seq<char>, updated: Seq<char>, header: Seq<char>) -> Seq<char>;

/// `similar::TextDiff::from_lines(original, updated)`, as a unified diff
/// with a context radius of 3 and `header` for both file names, rendered
/// to text. Claimed: the text is a function of the three arguments alone
/// (`unified_diff_text`).
#[verifier::external_body]
fn unified_diff(original: &str, updated: &str, header: &str) -> (d: String)
    ensures
        d@ == unified_diff_text(original@, updated@, header@),
{
    similar::TextDiff::from_lines(original, updated).unified_diff().context_radius(3).header(header, header).to_string()
}

/// `line` in the given foreground colour, as `console` writes it when
/// colours are on: the colour's escape code, the line, the reset code.
pub open spec fn coloured(line: Seq<char>, code: Seq<char>) -> Seq<char> {
    "\u{1b}["@ + code + "m"@ + line + "\u{1b}[0m"@
}

/// Whether `console` writes colours (`console::colors_enabled`). Nothing
/// is claimed: it depends on the terminal and the environment.
#[verifier::external_body]
fn colours_enabled() -> bool {
    console::colors_enabled()
}

/// `line` styled red with `console::style`, with colours forced on or off
/// by `on`. Claimed: the line in red (`ESC[31m`, the line, `ESC[0m`) when
/// `on`, else the line as it is.
#[verifier::external_body]
fn paint_red(line: &str, on: bool) -> (r: String)
    ensures
        r@ == if on { coloured(line@, "31"@) } else { line@ },
{
    format!("{}", console::style(line).red().force_styling(on))
}

/// `line` styled green with `console::style`, with colours forced on or
/// off by `on`. Claimed: the line in green (`ESC[32m`, the line, `ESC[0m`)
/// when `on`, else the line as it is.
#[verifier::external_body]
fn paint_green(line: &str, on: bool) -> (r: String)
    ensures
        r@ == if on { coloured(line@, "32"@) } else { line@ },
{
    format!("{}", console::style(line).green().force_styling(on))
}

/// The kind of a line of a unified diff, by its first character.
#[derive(Clone, Copy, Debug, PartialEq, Eq, Structural)]
pub enum DiffLineKind {
    /// Starts with `-`: shown red.
    Removed,
    /// Starts with `+`: shown green.
    Added,
    /// Anything else: shown as it is.
    Other,
}

pub open spec fn line_kind(line: Seq<char>) -> DiffLineKind {
    if line.len() > 0 && line[0] == '-' {
        DiffLineKind::Removed
    } else if line.len() > 0 && line[0] == '+' {
        DiffLineKind::Added
    } else {
        DiffLineKind::Other
    }
}

/// The kind of a diff line (see `line_kind`).
pub fn classify_diff_line(line: &str) -> (k: DiffLineKind)
    ensures
        k == line_kind(line@),
{
    let n = line.unicode_len();
    if n > 0 && line.get_char(0) == '-' {
        DiffLineKind::Removed
    } else if n > 0 && line.get_char(0) == '+' {
        DiffLineKind::Added
    } else {
        DiffLineKind::Other
    }
}

/// How a diff line is shown: with colours on, a removed line in red and an
/// added line in green; any other line, or any line with colours off, as
/// it is.
pub open spec fn painted_as(line: Seq<char>, on: bool) -> Seq<char> {
    match line_kind(line) {
        DiffLineKind::Removed => if on { coloured(line, "31"@) } else { line },
        DiffLineKind::Added => if on { coloured(line, "32"@) } else { line },
        DiffLineKind::Other => line,
    }
}

/// The unified diff text, each line as shown with colours `on` or off.
pub open spec fn diff_text(original: Seq<char>, updated: Seq<char>, path: Seq<char>, on: bool) -> Seq<char> {
    concat_all(
        split_inclusive(unified_diff_text(original, updated, path)).map_values(
            |l: Seq<char>| painted_as(l, on),
        ),
    )
}

/// The unified diff from `original` to `updated`, both files named `path`,
/// with colours `on` or off: removed lines red and added lines green when
/// on; the other lines as they are.
pub fn diff_in_colours(original: &str, updated: &str, path: &str, on: bool) -> (d: String)
    ensures
        d@ == diff_text(original@, updated@, path@, on),
{
    let text = unified_diff(original, updated, path);
    let cs = chars_of(text.as_str());
    let ranges = split_inclusive_ranges(&cs);
    let ghost lines = split_inclusive(text@);
    let ghost painted = lines.map_values(|l: Seq<char>| painted_as(l, on));
    let mut out = String::new();
    let mut i: usize = 0;
    assert(painted.take(0) =~= Seq::<Seq<char>>::empty());
    while i < ranges.len()
        invariant
            i <= ranges@.len(),
            cs@ == text@,
            lines == split_inclusive(text@),
            painted == lines.map_values(|l: Seq<char>| painted_as(l, on)),
            ranges_match(cs@, ranges@, lines),
            out@ == concat_all(painted.take(i as int)),
        decreases ranges@.len() - i,
    {
        let line = text.as_str().substring_char(ranges[i].0, ranges[i].1);
        let piece = match classify_diff_line(line) {
            DiffLineKind::Removed => paint_red(line, on),
            DiffLineKind::Added => paint_green(line, on),
            DiffLineKind::Other => String::from_str(line),
        };
        out.append(piece.as_str());
        proof {
            assert(line@ == lines[i as int]);
            assert(piece@ == painted[i as int]);
            assert(painted.take(i + 1).drop_last() =~= painted.take(i as int));
        }
        i = i + 1;
    }
    assert(painted.take(ranges@.len() as int) =~= painted);
    out
}

/// The unified diff from `original` to `updated`, both files named `path`,
/// in colour when `console` writes colours (see `diff_in_colours`).
pub fn diff(original: &str, updated: &str, path: &str) -> (d: String)
    ensures
        exists|on: bool| d@ == #[trigger] diff_text(original@, updated@, path@, on),
{
    let on = colours_enabled();
    diff_in_colours(original, updated, path, on)
}

/// Law: in every row of the table of themes, the column headed by a
/// target's name shows a green tick when the row's logical theme names a
/// theme for that target and a red cross when it does not; the row has one
/// cell per heading, the first the logical theme's name, marked
/// ` (current)` exactly when it is the current theme.
pub proof fn law_row_marks_each_target(current: Option<Seq<char>>, e: EntryModel, k: int, t: Target)
    requires
        1 <= k < header_text().len(),
        header_text()[k] == t.label_text(),
    ensures
        row_text(current, e).len() == header_text().len(),
        row_text(current, e)[0] == (if current == Some(e.0) {
            e.0 + " (current)"@
        } else {
            e.0
        }, CellStyle::Plain),
        row_text(current, e)[k] == if model_theme(e.1, t) is Some {
            ("\u{2713}"@, CellStyle::Green)
        } else {
            ("\u{2718}"@, CellStyle::Red)
        },
{
    reveal_strlit("ghostty");
    reveal_strlit("helix");
    reveal_strlit("zed");
    assert(header_text()[1] == "ghostty"@);
    assert(header_text()[2] == "helix"@);
    assert(header_text()[3] == "zed"@);
    assert(k == match t {
        Target::Ghostty => 1int,
        Target::Helix => 2int,
        Target::Zed => 3int,
    });
}

} // verus!
