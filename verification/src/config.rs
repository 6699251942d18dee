//! Where hue keeps its files, and the setting of the current theme.
use vstd::prelude::*;

use crate::error::Error;
use crate::text::chars_of;

verus! {

broadcast use vstd::string::group_string_axioms;

/// The path `rel`, taken relative to `base`, as `Path::join` forms it for a
/// relative `rel`: a `/` goes between unless `base` is empty or ends in one.
pub open spec fn join_path(base: Seq<char>, rel: Seq<char>) -> Seq<char> {
    if base.len() == 0 || base.last() == '/' {
        base + rel
    } else {
        base + seq!['/'] + rel
    }
}

/// `rel` taken relative to `base` (see `join_path`).
pub fn path_join(base: &str, rel: &str) -> (p: String)
    ensures
        p@ == join_path(base@, rel@),
{
    let cs = chars_of(base);
    let mut p = String::from_str(base);
    if cs.len() > 0 && cs[cs.len() - 1] != '/' {
        proof {
            reveal_strlit("/");
        }
        p.append("/");
    }
    p.append(rel);
    p
}

/// The user's home directory, from the `directories` crate's `BaseDirs`,
/// as text; `None` when it cannot be determined or is not valid UTF-8.
/// Claimed: a home directory that is found is not empty (`BaseDirs::new`
/// documents that an empty `$HOME`, or an empty home field of the user's
/// entry, gives no home directory). Which directory it is comes from the
/// environment and is not stated.
#[verifier::external_body]
fn home_directory() -> (h: Option<String>)
    ensures
        h matches Some(s) ==> s@.len() > 0,
{
    directories::BaseDirs::new().and_then(|dirs| dirs.home_dir().to_str().map(|s| s.to_string()))
}

/// The files and directories that hue uses, under the home directory.
pub struct Paths {
    pub home: String,
    pub root: String,
    pub config: String,
    pub catalog: String,
    pub themes_dir: String,
}

/// The paths hue uses for the home directory `home`.
pub open spec fn paths_for(p: Paths, home: Seq<char>) -> bool {
    &&& p.home@ == home
    &&& p.root@ == join_path(home, ".config/hue"@)
    &&& p.config@ == join_path(p.root@, "config.toml"@)
    &&& p.catalog@ == join_path(p.root@, "themes.toml"@)
    &&& p.themes_dir@ == join_path(p.root@, "themes"@)
}

impl Paths {
    /// The paths under the home directory `home`: the root `~/.config/hue`,
    /// the configuration `config.toml` and catalog `themes.toml` in it, and
    /// the directory `themes` that holds the per-target catalogs.
    pub fn from_home(home: String) -> (p: Paths)
        ensures
            paths_for(p, home@),
    {
        let root = path_join(home.as_str(), ".config/hue");
        let config = path_join(root.as_str(), "config.toml");
        let catalog = path_join(root.as_str(), "themes.toml");
        let themes_dir = path_join(root.as_str(), "themes");
        Paths { home, root, config, catalog, themes_dir }
    }

    /// The paths under the home directory `home` when it is known, else
    /// `HomeDirectoryUnknown`.
    pub fn from_home_directory(home: Option<String>) -> (r: Result<Paths, Error>)
        ensures
            match home {
                Some(h) => (r matches Ok(p) && paths_for(p, h@)),
                None => (r matches Err(e) && e is HomeDirectoryUnknown),
            },
    {
        match home {
            Some(h) => Ok(Paths::from_home(h)),
            None => Err(Error::HomeDirectoryUnknown),
        }
    }

    /// The paths under the user's home directory, or `HomeDirectoryUnknown`
    /// when it cannot be determined.
    pub fn new() -> (r: Result<Paths, Error>)
        ensures
            match r {
                Ok(p) => paths_for(p, p.home@) && p.home@.len() > 0,
                Err(e) => e is HomeDirectoryUnknown,
            },
    {
        Paths::from_home_directory(home_directory())
    }
}

/// hue's own settings.
#[derive(Debug)]
pub struct Config {
    pub current_theme: Option<String>,
}

impl Default for Config {
    fn default() -> (c: Self)
        ensures
            c.current_theme is None,
    {
        Config { current_theme: None }
    }
}

/// The current theme after `theme` is recorded, in a dry run or not.
pub open spec fn recorded(current: Option<Seq<char>>, theme: Seq<char>, dry_run: bool) -> Option<Seq<char>> {
    if dry_run {
        current
    } else {
        Some(theme)
    }
}

impl Config {
    /// The current theme as the contracts see it.
    pub open spec fn current_model(&self) -> Option<Seq<char>> {
        crate::catalog::opt_view(self.current_theme)
    }

    /// The theme that was set last, or `MissingCurrentTheme` when none was.
    pub fn current(&self) -> (r: Result<String, Error>)
        ensures
            match self.current_model() {
                Some(t) => (r matches Ok(s) && s@ == t),
                None => (r matches Err(e) && e is MissingCurrentTheme),
            },
    {
        match &self.current_theme {
            Some(t) => Ok(t.clone()),
            None => Err(Error::MissingCurrentTheme),
        }
    }

    /// Records `theme` as the current theme unless this is a dry run;
    /// returns whether the settings changed and must be saved.
    pub fn record_theme(&mut self, theme: String, dry_run: bool) -> (save: bool)
        ensures
            save == !dry_run,
            final(self).current_model() == recorded(old(self).current_model(), theme@, dry_run),
    {
        if !dry_run {
            self.current_theme = Some(theme);
        }
        !dry_run
    }
}

/// Law: hue's files lie under the home directory `home`: for a home
/// directory that does not end in `/`, the root is `<home>/.config/hue`,
/// the settings `<home>/.config/hue/config.toml` and the per-target
/// catalogs in `<home>/.config/hue/themes`.
pub proof fn law_paths_under_home(p: Paths, home: Seq<char>)
    requires
        paths_for(p, home),
        home.len() > 0,
        home.last() != '/',
    ensures
        p.home@ == home,
        p.root@ == home + "/.config/hue"@,
        p.config@ == home + "/.config/hue/config.toml"@,
        p.catalog@ == home + "/.config/hue/themes.toml"@,
        p.themes_dir@ == home + "/.config/hue/themes"@,
{
    reveal_strlit(".config/hue");
    reveal_strlit("/.config/hue");
    reveal_strlit("config.toml");
    reveal_strlit("themes.toml");
    reveal_strlit("themes");
    reveal_strlit("/.config/hue/config.toml");
    reveal_strlit("/.config/hue/themes.toml");
    reveal_strlit("/.config/hue/themes");
    assert(p.root@ =~= home + "/.config/hue"@);
    assert(p.config@ =~= home + "/.config/hue/config.toml"@);
    assert(p.catalog@ =~= home + "/.config/hue/themes.toml"@);
    assert(p.themes_dir@ =~= home + "/.config/hue/themes"@);
}

/// Law: once a theme is recorded outside a dry run, it is the current
/// theme; a dry run leaves the current theme as it was.
pub proof fn law_current_after_record(current: Option<Seq<char>>, theme: Seq<char>)
    ensures
        recorded(current, theme, false) == Some(theme),
        recorded(current, theme, true) == current,
{
}

} // verus!
