//! Checking a configuration, choosing presets, and resolving the standard
//! paths of Focus Pane.
use vstd::prelude::*;
use crate::body::is_word;
use crate::edits::append_chars;
use crate::text::{chars_of, string_of, trim, trim_bounds};

verus! {

/// A named workspace of task files and globs, as configured.
#[derive(Debug, Clone, PartialEq, Eq)]
pub struct WorkspaceConfig {
    pub name: String,
    pub files: Vec<String>,
}

/// What validation needs to know of one configured preset: its name, whether
/// all three of its durations are greater than zero, and its cycle count.
#[derive(Debug, Clone, PartialEq, Eq)]
pub struct PresetFacts {
    pub name: String,
    pub durations_positive: bool,
    pub cycles_before_long_break: u32,
}

/// What validation needs to know of a configuration.
#[derive(Debug, Clone, PartialEq, Eq)]
pub struct ConfigFacts {
    pub task_file: String,
    pub focus_positive: bool,
    pub breaks_positive: bool,
    pub cycles_before_long_break: u32,
    pub default_preset: String,
    pub presets: Vec<PresetFacts>,
    pub workspaces: Vec<WorkspaceConfig>,
}

/// The first problem of a configuration. Indices are those of the preset or
/// workspace at fault.
#[derive(Debug, Clone, Copy, PartialEq, Eq)]
pub enum ConfigError {
    EmptyTaskFile,
    NonPositiveFocus,
    NonPositiveBreaks,
    ZeroCycles,
    EmptyPresetName(usize),
    NonPositivePresetDurations(usize),
    ZeroPresetCycles(usize),
    DuplicatePreset(usize),
    UnknownDefaultPreset,
    EmptyWorkspaceName(usize),
    EmptyWorkspace(usize),
    DuplicateWorkspace(usize),
    EmptyFilePattern(usize),
}

pub open spec fn is_blank(s: Seq<char>) -> bool {
    trim(s).len() == 0
}

pub open spec fn preset_error(ps: Seq<PresetFacts>, k: int) -> Option<ConfigError> {
    let p = ps[k];
    if is_blank(p.name@) {
        Some(ConfigError::EmptyPresetName(k as usize))
    } else if !p.durations_positive {
        Some(ConfigError::NonPositivePresetDurations(k as usize))
    } else if p.cycles_before_long_break == 0 {
        Some(ConfigError::ZeroPresetCycles(k as usize))
    } else if exists|j: int| 0 <= j < k && (#[trigger] ps[j]).name@ == p.name@ {
        Some(ConfigError::DuplicatePreset(k as usize))
    } else {
        None
    }
}

pub open spec fn presets_error_from(ps: Seq<PresetFacts>, k: int) -> Option<ConfigError>
    decreases ps.len() - k,
{
    if 0 <= k < ps.len() {
        match preset_error(ps, k) {
            Some(e) => Some(e),
            None => presets_error_from(ps, k + 1),
        }
    } else {
        None
    }
}

pub open spec fn workspace_error(ws: Seq<WorkspaceConfig>, k: int) -> Option<ConfigError> {
    let w = ws[k];
    if is_blank(w.name@) {
        Some(ConfigError::EmptyWorkspaceName(k as usize))
    } else if w.files@.len() == 0 {
        Some(ConfigError::EmptyWorkspace(k as usize))
    } else if exists|j: int| 0 <= j < k && (#[trigger] ws[j]).name@ == w.name@ {
        Some(ConfigError::DuplicateWorkspace(k as usize))
    } else if exists|f: int| 0 <= f < w.files@.len() && is_blank((#[trigger] w.files@[f])@) {
        Some(ConfigError::EmptyFilePattern(k as usize))
    } else {
        None
    }
}

pub open spec fn workspaces_error_from(ws: Seq<WorkspaceConfig>, k: int) -> Option<ConfigError>
    decreases ws.len() - k,
{
    if 0 <= k < ws.len() {
        match workspace_error(ws, k) {
            Some(e) => Some(e),
            None => workspaces_error_from(ws, k + 1),
        }
    } else {
        None
    }
}

/// The first problem of a configuration, checked in this order: the task
/// file, the timer durations and cycles, each preset in turn (name,
/// durations, cycles, duplicate name), the default preset (which must name a
/// preset when any is configured), then each workspace in turn (name, files,
/// duplicate name, blank pattern).
pub open spec fn spec_config_error(c: ConfigFacts) -> Option<ConfigError> {
    if is_blank(c.task_file@) {
        Some(ConfigError::EmptyTaskFile)
    } else if !c.focus_positive {
        Some(ConfigError::NonPositiveFocus)
    } else if !c.breaks_positive {
        Some(ConfigError::NonPositiveBreaks)
    } else if c.cycles_before_long_break == 0 {
        Some(ConfigError::ZeroCycles)
    } else if presets_error_from(c.presets@, 0) is Some {
        presets_error_from(c.presets@, 0)
    } else if c.presets@.len() > 0 && !(exists|j: int| 0 <= j < c.presets@.len() && (#[trigger] c.presets@[j]).name@ == c.default_preset@) {
        Some(ConfigError::UnknownDefaultPreset)
    } else {
        workspaces_error_from(c.workspaces@, 0)
    }
}

pub fn blank(s: &String) -> (b: bool)
    ensures
        b == is_blank(s@),
{
    let v = chars_of(s.as_str());
    let (a, e) = trim_bounds(&v, 0, v.len());
    proof {
        assert(v@.subrange(0, v@.len() as int) =~= v@);
    }
    a == e
}

fn same(a: &String, b: &String) -> (r: bool)
    ensures
        r == (a@ == b@),
{
    is_word(&chars_of(a.as_str()), &chars_of(b.as_str()))
}

fn earlier_preset_named(ps: &Vec<PresetFacts>, k: usize) -> (r: bool)
    requires
        k < ps@.len(),
    ensures
        r == exists|j: int| 0 <= j < k && (#[trigger] ps@[j]).name@ == ps@[k as int].name@,
{
    let mut j: usize = 0;
    while j < k
        invariant
            j <= k < ps@.len(),
            forall|i: int| 0 <= i < j ==> (#[trigger] ps@[i]).name@ != ps@[k as int].name@,
        decreases k - j,
    {
        if same(&ps[j].name, &ps[k].name) {
            return true;
        }
        j += 1;
    }
    false
}

fn earlier_workspace_named(ws: &Vec<WorkspaceConfig>, k: usize) -> (r: bool)
    requires
        k < ws@.len(),
    ensures
        r == exists|j: int| 0 <= j < k && (#[trigger] ws@[j]).name@ == ws@[k as int].name@,
{
    let mut j: usize = 0;
    while j < k
        invariant
            j <= k < ws@.len(),
            forall|i: int| 0 <= i < j ==> (#[trigger] ws@[i]).name@ != ws@[k as int].name@,
        decreases k - j,
    {
        if same(&ws[j].name, &ws[k].name) {
            return true;
        }
        j += 1;
    }
    false
}

fn blank_pattern(files: &Vec<String>) -> (r: bool)
    ensures
        r == exists|f: int| 0 <= f < files@.len() && is_blank((#[trigger] files@[f])@),
{
    let mut f: usize = 0;
    while f < files.len()
        invariant
            f <= files@.len(),
            forall|i: int| 0 <= i < f ==> !is_blank((#[trigger] files@[i])@),
        decreases files.len() - f,
    {
        if blank(&files[f]) {
            return true;
        }
        f += 1;
    }
    false
}

/// Checks a configuration; the error is the first problem found.
pub fn validate_config(c: &ConfigFacts) -> (r: Result<(), ConfigError>)
    ensures
        match r {
            Ok(()) => spec_config_error(*c) is None,
            Err(e) => spec_config_error(*c) == Some(e),
        },
{
    if blank(&c.task_file) {
        return Err(ConfigError::EmptyTaskFile);
    }
    if !c.focus_positive {
        return Err(ConfigError::NonPositiveFocus);
    }
    if !c.breaks_positive {
        return Err(ConfigError::NonPositiveBreaks);
    }
    if c.cycles_before_long_break == 0 {
        return Err(ConfigError::ZeroCycles);
    }
    let mut k: usize = 0;
    while k < c.presets.len()
        invariant
            k <= c.presets@.len(),
            presets_error_from(c.presets@, 0) == presets_error_from(c.presets@, k as int),
            !is_blank(c.task_file@),
            c.focus_positive,
            c.breaks_positive,
            c.cycles_before_long_break != 0,
        decreases c.presets.len() - k,
    {
        let p = &c.presets[k];
        let err = if blank(&p.name) {
            Some(ConfigError::EmptyPresetName(k))
        } else if !p.durations_positive {
            Some(ConfigError::NonPositivePresetDurations(k))
        } else if p.cycles_before_long_break == 0 {
            Some(ConfigError::ZeroPresetCycles(k))
        } else if earlier_preset_named(&c.presets, k) {
            Some(ConfigError::DuplicatePreset(k))
        } else {
            None
        };
        assert(err == preset_error(c.presets@, k as int));
        match err {
            Some(e) => {
                return Err(e);
            },
            None => {},
        }
        k += 1;
    }
    if c.presets.len() > 0 {
        let mut found = false;
        let mut j: usize = 0;
        while j < c.presets.len()
            invariant
                j <= c.presets@.len(),
                found == exists|i: int| 0 <= i < j && (#[trigger] c.presets@[i]).name@ == c.default_preset@,
            decreases c.presets.len() - j,
        {
            if same(&c.presets[j].name, &c.default_preset) {
                found = true;
            }
            j += 1;
        }
        if !found {
            return Err(ConfigError::UnknownDefaultPreset);
        }
    }
    let mut w: usize = 0;
    while w < c.workspaces.len()
        invariant
            w <= c.workspaces@.len(),
            spec_config_error(*c) == workspaces_error_from(c.workspaces@, w as int),
        decreases c.workspaces.len() - w,
    {
        let ws = &c.workspaces[w];
        let err = if blank(&ws.name) {
            Some(ConfigError::EmptyWorkspaceName(w))
        } else if ws.files.len() == 0 {
            Some(ConfigError::EmptyWorkspace(w))
        } else if earlier_workspace_named(&c.workspaces, w) {
            Some(ConfigError::DuplicateWorkspace(w))
        } else if blank_pattern(&ws.files) {
            Some(ConfigError::EmptyFilePattern(w))
        } else {
            None
        };
        assert(err == workspace_error(c.workspaces@, w as int));
        match err {
            Some(e) => {
                return Err(e);
            },
            None => {},
        }
        w += 1;
    }
    Ok(())
}

/// Which preset a name selects.
#[derive(Debug, Clone, Copy, PartialEq, Eq)]
pub enum PresetChoice {
    /// The preset made of the flat timer settings, named as the default
    /// preset (there are no named presets).
    Legacy,
    /// The named preset at this index.
    Configured(usize),
    /// No preset has that name.
    Missing,
}

/// The index of the first name equal to `name`.
pub open spec fn first_named(names: Seq<String>, name: Seq<char>, k: int) -> Option<int>
    decreases names.len() - k,
{
    if 0 <= k < names.len() {
        if names[k]@ == name {
            Some(k)
        } else {
            first_named(names, name, k + 1)
        }
    } else {
        None
    }
}

/// The preset a name selects: with no named presets, the legacy preset when
/// the name is the default preset's; otherwise the first preset so named.
pub open spec fn spec_preset_choice(names: Seq<String>, default_preset: Seq<char>, name: Seq<char>) -> PresetChoice {
    if names.len() == 0 {
        if default_preset == name {
            PresetChoice::Legacy
        } else {
            PresetChoice::Missing
        }
    } else {
        match first_named(names, name, 0) {
            Some(k) => PresetChoice::Configured(k as usize),
            None => PresetChoice::Missing,
        }
    }
}

pub fn preset_choice(names: &Vec<String>, default_preset: &String, name: &String) -> (r: PresetChoice)
    ensures
        r == spec_preset_choice(names@, default_preset@, name@),
{
    if names.len() == 0 {
        return if same(default_preset, name) {
            PresetChoice::Legacy
        } else {
            PresetChoice::Missing
        };
    }
    let mut k: usize = 0;
    while k < names.len()
        invariant
            k <= names@.len(),
            names@.len() > 0,
            first_named(names@, name@, 0) == first_named(names@, name@, k as int),
        decreases names.len() - k,
    {
        if same(&names[k], name) {
            return PresetChoice::Configured(k);
        }
        k += 1;
    }
    PresetChoice::Missing
}

/// The preset used by default: the default preset when it exists, else the
/// first available one.
pub fn default_preset_choice(names: &Vec<String>, default_preset: &String) -> (r: PresetChoice)
    ensures
        r == match spec_preset_choice(names@, default_preset@, default_preset@) {
            PresetChoice::Missing => PresetChoice::Configured(0),
            c => c,
        },
        r != PresetChoice::Missing,
        names@.len() == 0 <==> r == PresetChoice::Legacy,
{
    match preset_choice(names, default_preset, default_preset) {
        PresetChoice::Missing => PresetChoice::Configured(0),
        c => c,
    }
}

/// The preset after the selected one among the available ones, going round;
/// the first one's successor when the selection is not among them.
pub fn next_preset_index(available: &Vec<String>, selected: &String) -> (r: usize)
    requires
        available@.len() > 0,
    ensures
        r < available@.len(),
        r == match first_named(available@, selected@, 0) {
            Some(k) => (k + 1) % (available@.len() as int),
            None => 1int % (available@.len() as int),
        },
{
    let mut k: usize = 0;
    while k < available.len()
        invariant
            k <= available@.len(),
            first_named(available@, selected@, 0) == first_named(available@, selected@, k as int),
        decreases available.len() - k,
    {
        if same(&available[k], selected) {
            return (k + 1) % available.len();
        }
        k += 1;
    }
    1 % available.len()
}

/// `base` joined with `path`, as `Path::join` does it on Unix: an absolute
/// path replaces the base; otherwise the path alone after an empty base, else
/// after a `/` unless the base ends in one.
pub open spec fn spec_join(base: Seq<char>, path: Seq<char>) -> Seq<char> {
    if path.len() > 0 && path[0] == '/' {
        path
    } else if base.len() == 0 {
        path
    } else if base.last() == '/' {
        base + path
    } else {
        base + seq!['/'] + path
    }
}

pub fn join_path(base: &str, path: &str) -> (r: String)
    ensures
        r@ == spec_join(base@, path@),
{
    let r = chars_of(path);
    if r.len() > 0 && r[0] == '/' {
        return string_of(&r);
    }
    let mut v = chars_of(base);
    if v.len() > 0 && v[v.len() - 1] != '/' {
        v.push('/');
    }
    append_chars(&mut v, &r);
    string_of(&v)
}

/// An XDG base directory: the variable's value when set, else the fallback
/// under the home directory (an empty home when that is unset too).
pub open spec fn spec_xdg_path(value: Option<Seq<char>>, home: Option<Seq<char>>, fallback: Seq<char>) -> Seq<char> {
    match value {
        Some(v) => v,
        None => spec_join(
            match home {
                Some(h) => h,
                None => Seq::empty(),
            },
            fallback,
        ),
    }
}

pub fn xdg_path(value: Option<String>, home: Option<String>, fallback: &str) -> (r: String)
    ensures
        r@ == spec_xdg_path(crate::models::opt_view(value), crate::models::opt_view(home), fallback@),
{
    proof {
        reveal_strlit("");
    }
    match value {
        Some(v) => v,
        None => match home {
            Some(h) => join_path(h.as_str(), fallback),
            None => join_path("", fallback),
        },
    }
}

/// The configuration file: `$XDG_CONFIG_HOME/focus-pane/config.toml`, with
/// `~/.config` as the fallback base.
pub fn default_config_path(config_home: Option<String>, home: Option<String>) -> (r: String)
    ensures
        r@ == spec_join(spec_xdg_path(crate::models::opt_view(config_home), crate::models::opt_view(home), ".config"@), "focus-pane/config.toml"@),
{
    proof {
        reveal_strlit(".config");
        reveal_strlit("focus-pane/config.toml");
    }
    let base = xdg_path(config_home, home, ".config");
    join_path(base.as_str(), "focus-pane/config.toml")
}

/// The data directory: `$XDG_DATA_HOME/focus-pane`, with `~/.local/share` as
/// the fallback base.
pub fn default_data_dir(data_home: Option<String>, home: Option<String>) -> (r: String)
    ensures
        r@ == spec_join(spec_xdg_path(crate::models::opt_view(data_home), crate::models::opt_view(home), ".local/share"@), "focus-pane"@),
{
    proof {
        reveal_strlit(".local/share");
        reveal_strlit("focus-pane");
    }
    let base = xdg_path(data_home, home, ".local/share");
    join_path(base.as_str(), "focus-pane")
}

/// The timer database, `focus.db` in the data directory.
pub fn default_db_path(data_home: Option<String>, home: Option<String>) -> (r: String)
    ensures
        r@ == spec_join(spec_join(spec_xdg_path(crate::models::opt_view(data_home), crate::models::opt_view(home), ".local/share"@), "focus-pane"@), "focus.db"@),
{
    proof {
        reveal_strlit("focus.db");
    }
    let dir = default_data_dir(data_home, home);
    join_path(dir.as_str(), "focus.db")
}

/// `~` and `~/...` stand for the home directory when it is known; the rest
/// after `~/` is joined to it as `Path::join` does (so an absolute rest, as in
/// `~//x`, replaces it).
pub open spec fn spec_expand_home(path: Seq<char>, home: Option<Seq<char>>) -> Seq<char> {
    if path == seq!['~'] {
        match home {
            Some(h) => h,
            None => path,
        }
    } else if path.len() >= 2 && path[0] == '~' && path[1] == '/' && home is Some {
        spec_join(home->0, path.subrange(2, path.len() as int))
    } else {
        path
    }
}

pub fn expand_home(path: &str, home: Option<String>) -> (r: String)
    ensures
        r@ == spec_expand_home(path@, crate::models::opt_view(home)),
{
    let p = chars_of(path);
    if p.len() == 1 && p[0] == '~' {
        assert(p@ =~= seq!['~']);
        return match home {
            Some(h) => h,
            None => string_of(&p),
        };
    }
    assert(p@ != seq!['~']);
    if p.len() >= 2 && p[0] == '~' && p[1] == '/' {
        match home {
            Some(h) => {
                let rest = string_of(&crate::grammar::copy_range(&p, 2, p.len()));
                return join_path(h.as_str(), rest.as_str());
            },
            None => {},
        }
    }
    string_of(&p)
}

/// The task file that a configured name means: the name with `~` expanded
/// when that makes it absolute, else a file of that name in the data directory.
pub open spec fn spec_resolve_task_file(configured: Seq<char>, home: Option<Seq<char>>, data_dir: Seq<char>) -> Seq<char> {
    let expanded = spec_expand_home(configured, home);
    if expanded.len() > 0 && expanded[0] == '/' {
        expanded
    } else {
        spec_join(data_dir, expanded)
    }
}

pub fn resolve_task_file(configured: &str, home: Option<String>, data_dir: &str) -> (r: String)
    ensures
        r@ == spec_resolve_task_file(configured@, crate::models::opt_view(home), data_dir@),
{
    let expanded = expand_home(configured, home);
    let e = chars_of(expanded.as_str());
    if e.len() > 0 && e[0] == '/' {
        expanded
    } else {
        join_path(data_dir, expanded.as_str())
    }
}

} // verus!
