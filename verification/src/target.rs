//! The applications whose theme is kept in sync, and how each one's
//! configuration is patched.
use vstd::prelude::*;

use crate::catalog::ThemeMapping;
use crate::config::{join_path, path_join, Paths};
use crate::error::Error;
use crate::jsonc::{
    entries_view, jsonc_append_property, jsonc_error, jsonc_has_property, jsonc_is_object_root,
    jsonc_object_root, jsonc_parse_error, jsonc_property_appended, jsonc_property_set,
    jsonc_root_has_property, jsonc_set_property,
};
use crate::keyfile::{
    assignment_prefix, first_theme_assignment, is_theme_assignment, law_setting_theme_line_is_idempotent,
    law_theme_line_reads_back, lemma_prefixed_line_assigns, no_stray_cr, set_theme_line,
    theme_line_index, with_theme, with_top_level_theme, is_table_header, table_header_index,
    law_top_level_theme_line_reads_back, law_top_level_setting_is_idempotent, no_stray_cr_top_level,
    law_lines_after_setting, lemma_first_theme_assignment, lemma_top_level_read, with_theme_line,
};
use crate::text::{concat, lines_of, newline_free, strip_cr};

verus! {

broadcast use vstd::string::group_string_axioms;

/// An application whose theme is kept in sync.
#[derive(Clone, Copy, Debug, PartialEq, Eq, Structural)]
pub enum Target {
    Ghostty,
    Helix,
    Zed,
}

impl Target {
    /// Every target, in the order they are listed and processed.
    pub const ALL: [Target; 3] = [Target::Ghostty, Target::Helix, Target::Zed];

    /// The target's name.
    pub open spec fn label_text(&self) -> Seq<char> {
        match self {
            Target::Ghostty => "ghostty"@,
            Target::Helix => "helix"@,
            Target::Zed => "zed"@,
        }
    }

    /// The target's name.
    pub fn label(&self) -> (l: &'static str)
        ensures
            l@ == self.label_text(),
    {
        match self {
            Target::Ghostty => "ghostty",
            Target::Helix => "helix",
            Target::Zed => "zed",
        }
    }

    /// The catalog of themes bundled for this target, as TOML: one table
    /// per logical theme, named by it, whose `name` is the target's own
    /// name for that theme. It is written to the target's catalog file when
    /// there is none yet.
    pub open spec fn catalog_text(&self) -> Seq<char> {
        match self {
            Target::Ghostty => "[ayu-dark]\nname = \"Ayu\"\n\n[catppuccin-latte]\nname = \"Catppuccin Latte\"\n\n[catppuccin-mocha]\nname = \"Catppuccin Mocha\"\n\n[dracula]\nname = \"Dracula\"\n\n[gruvbox-dark]\nname = \"Gruvbox Dark\"\n\n[gruvbox-light]\nname = \"Gruvbox Light\"\n\n[nord]\nname = \"Nord\"\n\n[one-dark]\nname = \"Atom One Dark\"\n\n[tokyo-night]\nname = \"TokyoNight\"\n"@,
            Target::Helix => "[ayu-dark]\nname = \"ayu_dark\"\n\n[catppuccin-latte]\nname = \"catppuccin_latte\"\n\n[catppuccin-mocha]\nname = \"catppuccin_mocha\"\n\n[dracula]\nname = \"dracula\"\n\n[gruvbox-dark]\nname = \"gruvbox\"\n\n[gruvbox-light]\nname = \"gruvbox_light\"\n\n[nord]\nname = \"nord\"\n\n[one-dark]\nname = \"onedark\"\n\n[tokyo-night]\nname = \"tokyonight\"\n"@,
            Target::Zed => "[ayu-dark]\nname = \"Ayu Dark\"\n\n[catppuccin-latte]\nname = \"Catppuccin Latte\"\n\n[catppuccin-mocha]\nname = \"Catppuccin Mocha\"\n\n[dracula]\nname = \"Dracula\"\n\n[gruvbox-dark]\nname = \"Gruvbox Dark\"\n\n[gruvbox-light]\nname = \"Gruvbox Light\"\n\n[nord]\nname = \"Nord\"\n\n[one-dark]\nname = \"One Dark\"\n\n[tokyo-night]\nname = \"Tokyo Night\"\n"@,
        }
    }

    /// The catalog of themes bundled for this target (see `catalog_text`).
    pub fn catalog(&self) -> (c: &'static str)
        ensures
            c@ == self.catalog_text(),
    {
        match self {
            Target::Ghostty => "[ayu-dark]\nname = \"Ayu\"\n\n[catppuccin-latte]\nname = \"Catppuccin Latte\"\n\n[catppuccin-mocha]\nname = \"Catppuccin Mocha\"\n\n[dracula]\nname = \"Dracula\"\n\n[gruvbox-dark]\nname = \"Gruvbox Dark\"\n\n[gruvbox-light]\nname = \"Gruvbox Light\"\n\n[nord]\nname = \"Nord\"\n\n[one-dark]\nname = \"Atom One Dark\"\n\n[tokyo-night]\nname = \"TokyoNight\"\n",
            Target::Helix => "[ayu-dark]\nname = \"ayu_dark\"\n\n[catppuccin-latte]\nname = \"catppuccin_latte\"\n\n[catppuccin-mocha]\nname = \"catppuccin_mocha\"\n\n[dracula]\nname = \"dracula\"\n\n[gruvbox-dark]\nname = \"gruvbox\"\n\n[gruvbox-light]\nname = \"gruvbox_light\"\n\n[nord]\nname = \"nord\"\n\n[one-dark]\nname = \"onedark\"\n\n[tokyo-night]\nname = \"tokyonight\"\n",
            Target::Zed => "[ayu-dark]\nname = \"Ayu Dark\"\n\n[catppuccin-latte]\nname = \"Catppuccin Latte\"\n\n[catppuccin-mocha]\nname = \"Catppuccin Mocha\"\n\n[dracula]\nname = \"Dracula\"\n\n[gruvbox-dark]\nname = \"Gruvbox Dark\"\n\n[gruvbox-light]\nname = \"Gruvbox Light\"\n\n[nord]\nname = \"Nord\"\n\n[one-dark]\nname = \"One Dark\"\n\n[tokyo-night]\nname = \"Tokyo Night\"\n",
        }
    }

    /// Where the target's configuration file lies, relative to the home
    /// directory.
    pub open spec fn config_file_text(&self) -> Seq<char> {
        match self {
            Target::Ghostty => ".config/ghostty/config"@,
            Target::Helix => ".config/helix/config.toml"@,
            Target::Zed => ".config/zed/settings.json"@,
        }
    }

    /// The path of the target's configuration file under the home directory.
    pub fn config_path(&self, paths: &Paths) -> (p: String)
        ensures
            p@ == join_path(paths.home@, self.config_file_text()),
    {
        let rel = match self {
            Target::Ghostty => ".config/ghostty/config",
            Target::Helix => ".config/helix/config.toml",
            Target::Zed => ".config/zed/settings.json",
        };
        path_join(paths.home.as_str(), rel)
    }

    /// Where the target's catalog of themes lies: `<label>.toml` in the
    /// themes directory.
    pub fn catalog_path(&self, paths: &Paths) -> (p: String)
        ensures
            p@ == join_path(paths.themes_dir@, self.label_text() + ".toml"@),
    {
        let file = concat(self.label(), ".toml");
        path_join(paths.themes_dir.as_str(), file.as_str())
    }

    /// The program and arguments that make the running application reload
    /// its configuration: `killall -USR2 ghostty` for Ghostty, `pkill -USR1
    /// -x hx` for Helix; Zed reloads by itself.
    pub open spec fn reload_text(&self) -> Option<(Seq<char>, Seq<Seq<char>>)> {
        match self {
            Target::Ghostty => Some(("killall"@, seq!["-USR2"@, "ghostty"@])),
            Target::Helix => Some(("pkill"@, seq!["-USR1"@, "-x"@, "hx"@])),
            Target::Zed => None,
        }
    }

    /// The command that makes the running application reload its
    /// configuration (see `reload_text`).
    pub fn reload_command(&self) -> (c: Option<ReloadCommand>)
        ensures
            reload_model(c) == self.reload_text(),
    {
        match self {
            Target::Ghostty => {
                let mut args: Vec<String> = Vec::new();
                args.push(String::from_str("-USR2"));
                args.push(String::from_str("ghostty"));
                let c = ReloadCommand { program: String::from_str("killall"), args };
                assert(c.model().1 =~= seq!["-USR2"@, "ghostty"@]);
                Some(c)
            },
            Target::Helix => {
                let mut args: Vec<String> = Vec::new();
                args.push(String::from_str("-USR1"));
                args.push(String::from_str("-x"));
                args.push(String::from_str("hx"));
                let c = ReloadCommand { program: String::from_str("pkill"), args };
                assert(c.model().1 =~= seq!["-USR1"@, "-x"@, "hx"@]);
                Some(c)
            },
            Target::Zed => None,
        }
    }

    /// What patching this target's configuration `contents` to use `theme`
    /// gives (see `patch_ghostty`, `patch_helix`, `patch_zed`).
    pub open spec fn applied(&self, contents: Seq<char>, theme: Seq<char>, r: Result<String, Error>) -> bool {
        match self {
            Target::Ghostty => r matches Ok(s) && s@ == with_theme(contents, ghostty_line(theme)),
            Target::Helix => r matches Ok(s) && s@ == with_top_level_theme(contents, helix_line(theme)),
            Target::Zed => zed_patched(contents, theme, r),
        }
    }

    /// Patches this target's configuration `contents` to use `theme`.
    pub fn apply_theme(&self, contents: &str, theme: &str) -> (r: Result<String, Error>)
        ensures
            self.applied(contents@, theme@, r),
    {
        match self {
            Target::Ghostty => Ok(patch_ghostty(contents, theme)),
            Target::Helix => Ok(patch_helix(contents, theme)),
            Target::Zed => patch_zed(contents, theme),
        }
    }

    /// The theme that `mapping` names for this target.
    pub fn mapped_theme<'a>(&self, mapping: &'a ThemeMapping) -> (t: Option<&'a str>)
        ensures
            t matches Some(s) ==> mapping.theme_for(*self) == Some(s@),
            t is None ==> mapping.theme_for(*self) is None,
    {
        let field = match self {
            Target::Ghostty => &mapping.ghostty,
            Target::Helix => &mapping.helix,
            Target::Zed => &mapping.zed,
        };
        match field {
            Some(s) => Some(s.as_str()),
            None => None,
        }
    }
}

/// The Ghostty line that sets the theme: `theme = <theme>`.
pub open spec fn ghostty_line(theme: Seq<char>) -> Seq<char> {
    assignment_prefix() + theme
}

/// The Helix line that sets the theme: `theme = "<theme>"`.
pub open spec fn helix_line(theme: Seq<char>) -> Seq<char> {
    assignment_prefix() + seq!['"'] + theme + seq!['"']
}

/// Sets the theme in a Ghostty configuration: the first line that assigns
/// `theme` (not a `#` comment) becomes `theme = <theme>`, or that line is
/// appended; the lines are written back with a newline after each.
pub fn patch_ghostty(contents: &str, theme: &str) -> (r: String)
    ensures
        r@ == with_theme(contents@, ghostty_line(theme@)),
{
    proof {
        reveal_strlit("theme = ");
    }
    let line = concat("theme = ", theme);
    assert(line@ =~= ghostty_line(theme@));
    set_theme_line(contents, line.as_str(), false)
}

/// Sets the theme in a Helix configuration, a TOML file whose `theme` key
/// stands at the top level: the first line before the first table header
/// that assigns `theme` (not a `#` comment) becomes `theme = "<theme>"`, or
/// that line goes just before the first table header (at the end when there
/// is none); the lines are written back with a newline after each.
pub fn patch_helix(contents: &str, theme: &str) -> (r: String)
    ensures
        r@ == with_top_level_theme(contents@, helix_line(theme@)),
{
    proof {
        reveal_strlit("theme = \"");
        reveal_strlit("\"");
    }
    let line = concat("theme = \"", theme);
    let line = line.concat("\"");
    assert(line@ =~= helix_line(theme@));
    set_theme_line(contents, line.as_str(), true)
}


/// The string properties of Zed's `theme` object: the theme for dark and
/// light appearance, and the dark mode.
pub open spec fn zed_theme_entries(theme: Seq<char>) -> Seq<(Seq<char>, Seq<char>)> {
    seq![("dark"@, theme), ("light"@, theme), ("mode"@, "dark"@)]
}

/// The properties of Zed's `theme` object for `theme`.
pub fn zed_theme_value(theme: &str) -> (v: Vec<(String, String)>)
    ensures
        v@.map_values(|e: (String, String)| (e.0@, e.1@)) == zed_theme_entries(theme@),
{
    let mut v: Vec<(String, String)> = Vec::new();
    v.push((String::from_str("dark"), String::from_str(theme)));
    v.push((String::from_str("light"), String::from_str(theme)));
    v.push((String::from_str("mode"), String::from_str("dark")));
    assert(v@.map_values(|e: (String, String)| (e.0@, e.1@)) =~= zed_theme_entries(theme@));
    v
}

/// The error for Zed settings that cannot be patched.
pub open spec fn zed_layout_error(r: Result<String, Error>, reason: Seq<char>) -> bool {
    r matches Err(e) && (e matches Error::UnsupportedLayout { app, reason: why } && app == Target::Zed
        && why@ == reason)
}

/// What patching Zed settings `contents` gives: text that is not JSONC is
/// refused with the parser's error, and a root that is not an object is
/// refused; otherwise the root object's `theme` property is given the theme
/// object when it has one, or the property is appended when it has none.
pub open spec fn zed_patched(contents: Seq<char>, theme: Seq<char>, r: Result<String, Error>) -> bool {
    match jsonc_parse_error(contents) {
        Some(m) => zed_layout_error(r, "invalid JSONC: "@ + m),
        None => if !jsonc_object_root(contents) {
            zed_layout_error(r, "settings root is not an object"@)
        } else if jsonc_root_has_property(contents, "theme"@) {
            r matches Ok(s) && s@ == jsonc_property_set(contents, "theme"@, zed_theme_entries(theme))
        } else {
            r matches Ok(s) && s@ == jsonc_property_appended(
                contents,
                "theme"@,
                zed_theme_entries(theme),
            )
        },
    }
}

/// Sets the theme in Zed settings (JSON with comments): the root object's
/// `theme` property becomes `{"dark": <theme>, "light": <theme>, "mode":
/// "dark"}`, replacing the value it had or appended when it had none; the
/// rest of the text keeps its formatting.
pub fn patch_zed(contents: &str, theme: &str) -> (r: Result<String, Error>)
    ensures
        zed_patched(contents@, theme@, r),
{
    if let Some(m) = jsonc_error(contents) {
        let reason = concat("invalid JSONC: ", m.as_str());
        return Err(Error::UnsupportedLayout { app: Target::Zed, reason });
    }
    if !jsonc_is_object_root(contents) {
        return Err(
            Error::UnsupportedLayout {
                app: Target::Zed,
                reason: String::from_str("settings root is not an object"),
            },
        );
    }
    let value = zed_theme_value(theme);
    assert(entries_view(value@) == zed_theme_entries(theme@));
    if jsonc_has_property(contents, "theme") {
        Ok(jsonc_set_property(contents, "theme", &value))
    } else {
        Ok(jsonc_append_property(contents, "theme", &value))
    }
}

/// A program to run, with its arguments.
pub struct ReloadCommand {
    pub program: String,
    pub args: Vec<String>,
}

impl ReloadCommand {
    pub open spec fn model(&self) -> (Seq<char>, Seq<Seq<char>>) {
        (self.program@, self.args@.map_values(|a: String| a@))
    }
}

pub open spec fn reload_model(c: Option<ReloadCommand>) -> Option<(Seq<char>, Seq<Seq<char>>)> {
    match c {
        Some(c) => Some(c.model()),
        None => None,
    }
}

/// What to do with a patched configuration.
pub enum WriteAction {
    /// Show the difference between the old and the new text.
    ShowDiff,
    /// Report, with this text, that nothing changes.
    ReportUnchanged(String),
    /// Write the new text to the file.
    WriteFile,
}

/// Whether a patch changes the configuration, and what to do with it.
pub struct WritePlan {
    pub changed: bool,
    pub action: WriteAction,
}

/// The plan for writing `updated` over `original` at `path`.
pub open spec fn write_planned(
    path: Seq<char>,
    target: Target,
    original: Seq<char>,
    updated: Seq<char>,
    dry_run: bool,
    p: WritePlan,
) -> bool {
    &&& p.changed == (original != updated)
    &&& if !dry_run {
        p.action is WriteFile
    } else if p.changed {
        p.action is ShowDiff
    } else {
        p.action matches WriteAction::ReportUnchanged(m) && m@ == target.label_text()
            + ": no changes "@ + path + "\n"@
    }
}

/// Plans writing the patched configuration `updated` over `original` at
/// `path`: a dry run shows the difference, or reports that nothing changes;
/// otherwise the file is written. Either way, whether the text changed.
pub fn write_target(path: &str, target: Target, original: &str, updated: &str, dry_run: bool) -> (p: WritePlan)
    ensures
        write_planned(path@, target, original@, updated@, dry_run, p),
{
    let changed = !crate::text::chars_equal(&crate::text::chars_of(original), &crate::text::chars_of(updated));
    let action = if !dry_run {
        WriteAction::WriteFile
    } else if changed {
        WriteAction::ShowDiff
    } else {
        let m = concat(target.label(), ": no changes ");
        let m = m.concat(path);
        WriteAction::ReportUnchanged(m.concat("\n"))
    };
    WritePlan { changed, action }
}

/// Where applying a mapping to a target stands.
pub enum ApplyState {
    /// Nothing has been done.
    Start,
    /// Waiting to learn whether the configuration file exists.
    AwaitingCheck { theme: String, path: String },
    /// Waiting for the configuration file's text.
    AwaitingContents { theme: String, path: String },
    /// Waiting for the patched text to be shown or written.
    AwaitingWrite { changed: bool },
    /// Done.
    Finished,
}

/// What the outside world reports back.
pub enum ApplyEvent {
    Begin,
    PathChecked(bool),
    ContentsRead(String),
    WriteDone,
}

/// What the outside world is asked to do next.
pub enum ApplyAction {
    /// Tell whether a file exists at this path.
    CheckPath(String),
    /// Read the text of the file at this path.
    ReadFile(String),
    /// Carry out the plan for the patched text of the file at `path`.
    Write { path: String, original: String, updated: String, plan: WritePlan },
    /// Stop with this result: whether the mapping named a theme for the
    /// target; and run the reload command, if there is one.
    Done { result: Result<bool, Error>, reload: Option<ReloadCommand> },
}

/// The event that each state waits for.
pub open spec fn accepts(state: ApplyState, event: ApplyEvent) -> bool {
    match state {
        ApplyState::Start => event is Begin,
        ApplyState::AwaitingCheck { .. } => event is PathChecked,
        ApplyState::AwaitingContents { .. } => event is ContentsRead,
        ApplyState::AwaitingWrite { .. } => event is WriteDone,
        ApplyState::Finished => false,
    }
}

impl Target {
    /// One step of applying `mapping` to this target, as the contracts see it.
    pub open spec fn apply_step(
        &self,
        mapping: ThemeMapping,
        paths: Paths,
        dry_run: bool,
        state: ApplyState,
        event: ApplyEvent,
        next: ApplyState,
        action: ApplyAction,
    ) -> bool {
        let path_text = join_path(paths.home@, self.config_file_text());
        match state {
            ApplyState::Start => match mapping.theme_for(*self) {
                None => next is Finished && (action matches ApplyAction::Done { result, reload }
                    && result == Ok::<bool, Error>(false) && reload is None),
                Some(t) => (next matches ApplyState::AwaitingCheck { theme, path } && theme@ == t
                    && path@ == path_text) && (action matches ApplyAction::CheckPath(p) && p@
                    == path_text),
            },
            ApplyState::AwaitingCheck { theme, path } => match event {
                ApplyEvent::PathChecked(true) => (next matches ApplyState::AwaitingContents {
                    theme: t,
                    path: p,
                } && t@ == theme@ && p@ == path@) && (action matches ApplyAction::ReadFile(p)
                    && p@ == path@),
                _ => next is Finished && (action matches ApplyAction::Done { result, reload }
                    && reload is None && (result matches Err(e) && (e matches Error::MissingTarget {
                    app,
                    path: p,
                } && app == *self && p@ == path@))),
            },
            ApplyState::AwaitingContents { theme, path } => match event {
                ApplyEvent::ContentsRead(contents) => match action {
                    ApplyAction::Done { result, reload } => next is Finished && reload is None && (
                    result matches Err(e) && self.applied(contents@, theme@, Err(e))),
                    ApplyAction::Write { path: p, original, updated, plan } => p@ == path@
                        && original@ == contents@ && self.applied(contents@, theme@, Ok(updated))
                        && write_planned(path@, *self, contents@, updated@, dry_run, plan) && (
                    next matches ApplyState::AwaitingWrite { changed } && changed == plan.changed),
                    _ => false,
                },
                _ => false,
            },
            ApplyState::AwaitingWrite { changed } => next is Finished && (
            action matches ApplyAction::Done { result, reload } && result == Ok::<bool, Error>(
                true,
            ) && reload_model(reload) == (if changed && !dry_run {
                self.reload_text()
            } else {
                None
            })),
            ApplyState::Finished => false,
        }
    }

    /// Applies `mapping` to this target, one step at a time: for each state
    /// and the event it waits for, the next state and what the outside world
    /// is to do. Without a theme for this target there is nothing to do;
    /// a missing configuration file is `MissingTarget`; otherwise the file
    /// is patched with `apply_theme`, the result planned with
    /// `write_target`, and, when a real run changed it, the application is
    /// asked to reload.
    pub fn apply_mapping(
        &self,
        mapping: &ThemeMapping,
        paths: &Paths,
        dry_run: bool,
        state: ApplyState,
        event: ApplyEvent,
    ) -> (r: (ApplyState, ApplyAction))
        requires
            accepts(state, event),
        ensures
            self.apply_step(*mapping, *paths, dry_run, state, event, r.0, r.1),
    {
        match state {
            ApplyState::Start => match self.mapped_theme(mapping) {
                None => (ApplyState::Finished, ApplyAction::Done { result: Ok(false), reload: None }),
                Some(theme) => {
                    let path = self.config_path(paths);
                    let check = path.clone();
                    (
                        ApplyState::AwaitingCheck { theme: String::from_str(theme), path },
                        ApplyAction::CheckPath(check),
                    )
                },
            },
            ApplyState::AwaitingCheck { theme, path } => match event {
                ApplyEvent::PathChecked(true) => {
                    let read = path.clone();
                    (ApplyState::AwaitingContents { theme, path }, ApplyAction::ReadFile(read))
                },
                _ => (
                    ApplyState::Finished,
                    ApplyAction::Done {
                        result: Err(Error::MissingTarget { app: *self, path }),
                        reload: None,
                    },
                ),
            },
            ApplyState::AwaitingContents { theme, path } => match event {
                ApplyEvent::ContentsRead(contents) => match self.apply_theme(
                    contents.as_str(),
                    theme.as_str(),
                ) {
                    Ok(updated) => {
                        let plan = write_target(
                            path.as_str(),
                            *self,
                            contents.as_str(),
                            updated.as_str(),
                            dry_run,
                        );
                        let changed = plan.changed;
                        (
                            ApplyState::AwaitingWrite { changed },
                            ApplyAction::Write { path, original: contents, updated, plan },
                        )
                    },
                    Err(e) => (
                        ApplyState::Finished,
                        ApplyAction::Done { result: Err(e), reload: None },
                    ),
                },
                _ => (ApplyState::Finished, ApplyAction::Done { result: Ok(false), reload: None }),
            },
            ApplyState::AwaitingWrite { changed } => {
                let reload = if changed && !dry_run {
                    self.reload_command()
                } else {
                    None
                };
                (ApplyState::Finished, ApplyAction::Done { result: Ok(true), reload })
            },
            ApplyState::Finished => (
                ApplyState::Finished,
                ApplyAction::Done { result: Ok(false), reload: None },
            ),
        }
    }
}


proof fn lemma_lines_newline_free(theme: Seq<char>)
    requires
        newline_free(theme),
    ensures
        newline_free(ghostty_line(theme)),
        newline_free(helix_line(theme)),
        is_theme_assignment(ghostty_line(theme)),
        is_theme_assignment(helix_line(theme)),
        !is_table_header(helix_line(theme)),
{
    let g = ghostty_line(theme);
    let h = helix_line(theme);
    assert forall|k: int| 0 <= k < g.len() implies #[trigger] g[k] != '\n' by {
        if k >= 8 {
            assert(g[k] == theme[k - 8]);
        }
    }
    assert forall|k: int| 0 <= k < h.len() implies #[trigger] h[k] != '\n' by {
        if 9 <= k < h.len() - 1 {
            assert(h[k] == theme[k - 9]);
        }
    }
    lemma_prefixed_line_assigns(theme);
    assert(h =~= assignment_prefix() + (seq!['"'] + theme + seq!['"']));
    lemma_prefixed_line_assigns(seq!['"'] + theme + seq!['"']);
}

/// Law: after `patch_ghostty`, the first line that assigns the theme is
/// `theme = <theme>`, where the old first assignment stood (or after the
/// last line); a trailing carriage return of the theme is swallowed by the
/// line ending.
pub proof fn law_ghostty_theme_reads_back(contents: Seq<char>, theme: Seq<char>)
    requires
        newline_free(theme),
    ensures
        first_theme_assignment(lines_of(with_theme(contents, ghostty_line(theme)))) == Some(
            theme_line_index(lines_of(contents)),
        ),
        lines_of(with_theme(contents, ghostty_line(theme)))[theme_line_index(lines_of(contents))]
            == strip_cr(ghostty_line(theme)),
{
    lemma_lines_newline_free(theme);
    law_theme_line_reads_back(contents, ghostty_line(theme));
}

/// Law: after `patch_helix`, the first top-level line that assigns the
/// theme is `theme = "<theme>"`, where the old one stood (or just before the
/// first table header), and the tables after it are unchanged but for
/// carriage returns before line endings.
pub proof fn law_helix_theme_reads_back(contents: Seq<char>, theme: Seq<char>)
    requires
        newline_free(theme),
    ensures
        ({
            let ls = lines_of(contents);
            let top = ls.take(table_header_index(ls));
            let q = lines_of(with_top_level_theme(contents, helix_line(theme)));
            &&& first_theme_assignment(q.take(table_header_index(q))) == Some(theme_line_index(top))
            &&& q[theme_line_index(top)] == helix_line(theme)
            &&& q.skip(table_header_index(q)) == ls.skip(table_header_index(ls)).map_values(
                |l: Seq<char>| strip_cr(l),
            )
        }),
{
    lemma_lines_newline_free(theme);
    law_top_level_theme_line_reads_back(contents, helix_line(theme));
    assert(strip_cr(helix_line(theme)) == helix_line(theme));
}

/// Law: patching a Ghostty configuration twice with the same theme is
/// patching it once.
pub proof fn law_ghostty_patch_idempotent(contents: Seq<char>, theme: Seq<char>)
    requires
        newline_free(theme),
        no_stray_cr(contents),
    ensures
        with_theme(with_theme(contents, ghostty_line(theme)), ghostty_line(theme)) == with_theme(
            contents,
            ghostty_line(theme),
        ),
{
    lemma_lines_newline_free(theme);
    law_setting_theme_line_is_idempotent(contents, ghostty_line(theme));
}

/// Law: patching a Helix configuration twice with the same theme is
/// patching it once.
pub proof fn law_helix_patch_idempotent(contents: Seq<char>, theme: Seq<char>)
    requires
        newline_free(theme),
        no_stray_cr_top_level(contents),
    ensures
        with_top_level_theme(with_top_level_theme(contents, helix_line(theme)), helix_line(theme))
            == with_top_level_theme(contents, helix_line(theme)),
{
    lemma_lines_newline_free(theme);
    law_top_level_setting_is_idempotent(contents, helix_line(theme));
}

/// What setting a theme reports of applying it to one target: nothing when
/// that worked, else a warning with the error's text. A failure on one
/// target does not stop the others.
pub fn warning(outcome: &Result<bool, Error>) -> (w: Option<String>)
    ensures
        match outcome {
            Ok(_) => w is None,
            Err(e) => w matches Some(s) && s@ == "warning: "@ + e.message_text(),
        },
{
    match outcome {
        Ok(_) => None,
        Err(e) => {
            let m = e.message();
            Some(concat("warning: ", m.as_str()))
        },
    }
}

/// Law: a dry run changes nothing: no step of applying a mapping in a dry
/// run asks for a file to be written or for an application to reload.
pub proof fn law_dry_run_changes_nothing(
    target: Target,
    mapping: ThemeMapping,
    paths: Paths,
    state: ApplyState,
    event: ApplyEvent,
    next: ApplyState,
    action: ApplyAction,
)
    requires
        target.apply_step(mapping, paths, true, state, event, next, action),
    ensures
        !(action matches ApplyAction::Write { plan, .. } && plan.action is WriteFile),
        !(action matches ApplyAction::Done { reload, .. } && reload is Some),
{
}

/// Setting the theme line among the first `h` lines, and keeping the rest,
/// changes the lines only where the theme line goes.
proof fn lemma_set_in_scope(ls: Seq<Seq<char>>, h: int, line: Seq<char>)
    requires
        0 <= h <= ls.len(),
    ensures
        ({
            let top = ls.take(h);
            let i = theme_line_index(top);
            let p = with_theme_line(top, line) + ls.skip(h);
            &&& 0 <= i < p.len()
            &&& p[i] == line
            &&& p.remove(i) == if first_theme_assignment(top) is Some {
                ls.remove(i)
            } else {
                ls
            }
        }),
{
    let top = ls.take(h);
    lemma_first_theme_assignment(top);
    let i = theme_line_index(top);
    let p = with_theme_line(top, line) + ls.skip(h);
    if first_theme_assignment(top) is Some {
        assert(p.remove(i) =~= ls.remove(i));
    } else {
        assert(i == h);
        assert(p.remove(i) =~= ls);
    }
}

/// Law: patching a Ghostty or Helix configuration changes its theme line
/// and nothing else. The new text's lines are the old ones (each without a
/// trailing carriage return) with `theme = <theme>` (Ghostty) or
/// `theme = "<theme>"` (Helix) in place of the first line that assigns the
/// theme, or, when there is none, added after the last line (Ghostty) or
/// just before the first table header (Helix).
pub proof fn law_apply_theme_changes_only_the_theme_line(
    target: Target,
    contents: Seq<char>,
    theme: Seq<char>,
    r: Result<String, Error>,
)
    requires
        target is Ghostty || target is Helix,
        target.applied(contents, theme, r),
        newline_free(theme),
    ensures
        r is Ok,
        ({
            let ls = lines_of(contents);
            let line = if target is Ghostty {
                "theme = "@ + theme
            } else {
                "theme = \""@ + theme + "\""@
            };
            let h = if target is Ghostty {
                ls.len() as int
            } else {
                table_header_index(ls)
            };
            let i = theme_line_index(ls.take(h));
            let q = lines_of(r->Ok_0@);
            &&& 0 <= i < q.len()
            &&& q[i] == strip_cr(line)
            &&& q.remove(i) == (if first_theme_assignment(ls.take(h)) is Some {
                ls.remove(i)
            } else {
                ls
            }).map_values(|l: Seq<char>| strip_cr(l))
        }),
{
    reveal_strlit("theme = ");
    reveal_strlit("theme = \"");
    reveal_strlit("\"");
    lemma_lines_newline_free(theme);
    let ls = lines_of(contents);
    let q = lines_of(r->Ok_0@);
    crate::keyfile::lemma_table_header_index(ls);
    if target is Ghostty {
        let line = ghostty_line(theme);
        assert(line =~= "theme = "@ + theme);
        let h = ls.len() as int;
        law_lines_after_setting(contents, line);
        assert(ls.take(h) =~= ls);
        let p = with_theme_line(ls.take(h), line) + ls.skip(h);
        assert(p =~= with_theme_line(ls, line));
        lemma_set_in_scope(ls, h, line);
        let i = theme_line_index(ls.take(h));
        assert(q.remove(i) =~= p.remove(i).map_values(|l: Seq<char>| strip_cr(l)));
    } else {
        let line = helix_line(theme);
        assert(line =~= "theme = \""@ + theme + "\""@);
        let h = table_header_index(ls);
        lemma_top_level_read(contents, line);
        let p = with_theme_line(ls.take(h), line) + ls.skip(h);
        lemma_set_in_scope(ls, h, line);
        let i = theme_line_index(ls.take(h));
        assert(q.remove(i) =~= p.remove(i).map_values(|l: Seq<char>| strip_cr(l)));
    }
}

/// Law: a patched text counts as a change exactly when it differs from the
/// old text in its length or in some character. A real run writes the
/// file; a dry run shows the difference when there is one, and otherwise
/// reports that the target's file at `path` has no changes.
pub proof fn law_write_plan(
    path: Seq<char>,
    target: Target,
    original: Seq<char>,
    updated: Seq<char>,
    dry_run: bool,
    p: WritePlan,
)
    requires
        write_planned(path, target, original, updated, dry_run, p),
    ensures
        p.changed == (original.len() != updated.len() || exists|k: int|
            0 <= k < original.len() && #[trigger] original[k] != updated[k]),
        !dry_run ==> p.action is WriteFile,
        dry_run && p.changed ==> p.action is ShowDiff,
        dry_run && !p.changed ==> (p.action matches WriteAction::ReportUnchanged(m) && m@
            == target.label_text() + ": no changes "@ + path + "\n"@),
{
    if original.len() == updated.len() && !(exists|k: int|
        0 <= k < original.len() && #[trigger] original[k] != updated[k]) {
        assert(original =~= updated);
    }
    if original == updated {
        assert(!(exists|k: int| 0 <= k < original.len() && #[trigger] original[k] != updated[k]));
    }
}

/// Law: once the patched file has been written in a real run that changed
/// it, the application that was patched is asked to reload: Ghostty with
/// `killall -USR2 ghostty`, Helix with `pkill -USR1 -x hx`; Zed reloads by
/// itself. A dry run, or a run that changed nothing, reloads nothing.
pub proof fn law_reload_after_write(
    target: Target,
    mapping: ThemeMapping,
    paths: Paths,
    dry_run: bool,
    changed: bool,
    event: ApplyEvent,
    next: ApplyState,
    action: ApplyAction,
)
    requires
        target.apply_step(mapping, paths, dry_run, ApplyState::AwaitingWrite { changed }, event, next, action),
    ensures
        next is Finished,
        action matches ApplyAction::Done { result, reload } && result == Ok::<bool, Error>(true)
            && reload_model(reload) == if changed && !dry_run {
            match target {
                Target::Ghostty => Some(("killall"@, seq!["-USR2"@, "ghostty"@])),
                Target::Helix => Some(("pkill"@, seq!["-USR1"@, "-x"@, "hx"@])),
                Target::Zed => None,
            }
        } else {
            None
        },
{
}

} // verus!
