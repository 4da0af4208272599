//! Combining the global and project Runfiles.
use vstd::prelude::*;
use crate::ast::opt_view;
use crate::text::{from_chars, push_str, to_chars};

verus! {

/// Error message when no Runfile is found.
pub const NO_RUNFILE_ERROR: &'static str = "Error: No Runfile found. Create ~/.runfile or ./Runfile to define functions.";

/// Which Runfiles were loaded.
#[derive(Debug, Clone, Copy)]
pub struct MergeMetadata {
    pub has_global: bool,
    pub has_project: bool,
}

/// The merged content: the global Runfile first, then the project one after a newline, so
/// that project definitions, coming later, take precedence.
pub open spec fn merged_content(global: Option<Seq<char>>, project: Option<Seq<char>>) -> Option<Seq<char>> {
    match (global, project) {
        (None, None) => None,
        (Some(g), None) => Some(g),
        (None, Some(p)) => Some(p),
        (Some(g), Some(p)) => Some(g + "\n"@ + p),
    }
}

/// The Runfile content in use and which Runfiles it comes from: when a Runfile was given
/// on the command line (`given`), its content alone (`custom`, `None` when it could not be
/// read), counted as the project's; otherwise the global and project Runfiles merged.
pub open spec fn chosen_config(
    given: bool,
    custom: Option<Seq<char>>,
    global: Option<Seq<char>>,
    project: Option<Seq<char>>,
) -> Option<(Seq<char>, bool, bool)> {
    if given {
        match custom {
            Some(c) => Some((c, false, true)),
            None => None,
        }
    } else {
        match merged_content(global, project) {
            Some(c) => Some((c, global is Some, project is Some)),
            None => None,
        }
    }
}

pub open spec fn config_view(r: Option<(String, MergeMetadata)>) -> Option<(Seq<char>, bool, bool)> {
    match r {
        Some((c, m)) => Some((c@, m.has_global, m.has_project)),
        None => None,
    }
}

/// The Runfile content in use (see `chosen_config`); `custom` is `Some` when a Runfile was
/// given on the command line, holding what was read of it.
pub fn choose_config(custom: Option<Option<String>>, global: Option<String>, project: Option<String>) -> (r: Option<(String, MergeMetadata)>)
    ensures
        config_view(r) == chosen_config(custom is Some, match custom {
            Some(c) => opt_view(c),
            None => None,
        }, opt_view(global), opt_view(project)),
{
    match custom {
        Some(Some(c)) => Some((c, MergeMetadata { has_global: false, has_project: true })),
        Some(None) => None,
        None => merge_runfiles(global, project),
    }
}

/// The name of the directory that long output for agents is saved in.
pub const RUN_OUTPUT_DIR: &'static str = ".run-output";

/// The base directory for long output: the one named by the environment, else the
/// Runfile's directory, else the temporary directory.
pub open spec fn output_base(env: Option<Seq<char>>, runfile_dir: Option<Seq<char>>, temp: Seq<char>) -> Seq<char> {
    match env {
        Some(e) => e,
        None => match runfile_dir {
            Some(d) => d,
            None => temp,
        },
    }
}

/// The base directory for long output (see `output_base`), and whether `.run-output` is
/// to be added to it: not when it already is a `.run-output` directory.
pub fn output_dir_choice(env: Option<String>, runfile_dir: Option<String>, temp: String) -> (r: (String, bool))
    ensures
        r.0@ == output_base(opt_view(env), opt_view(runfile_dir), temp@),
        r.1 == (crate::interpreter::shell::path_file_name(r.0@) != Some(RUN_OUTPUT_DIR@)),
{
    let base = match env {
        Some(e) => e,
        None => match runfile_dir {
            Some(d) => d,
            None => temp,
        },
    };
    let add = match crate::interpreter::shell::file_name_of(base.as_str()) {
        Some(n) => !crate::text::chars_eq(to_chars(n.as_str()).as_slice(), to_chars(RUN_OUTPUT_DIR).as_slice()),
        None => true,
    };
    (base, add)
}

/// Whether the global Runfile is read: not when merging is disabled and a project
/// Runfile exists (the global one remains the fallback).
pub open spec fn global_wanted(disable_global_merge: bool, has_project: bool) -> bool {
    !(disable_global_merge && has_project)
}

/// Whether the global Runfile is read (see `global_wanted`).
pub fn load_global(disable_global_merge: bool, has_project: bool) -> (b: bool)
    ensures
        b == global_wanted(disable_global_merge, has_project),
{
    !(disable_global_merge && has_project)
}

/// Merge the contents of the global and project Runfiles (see `merged_content`), and
/// say which were present.
pub fn merge_runfiles(global: Option<String>, project: Option<String>) -> (r: Option<(String, MergeMetadata)>)
    ensures
        match r {
            Some((c, m)) => merged_content(opt_view(global), opt_view(project)) == Some(c@)
                && m.has_global == global is Some && m.has_project == project is Some,
            None => global is None && project is None,
        },
{
    match (global, project) {
        (None, None) => None,
        (Some(g), None) => Some((g, MergeMetadata { has_global: true, has_project: false })),
        (None, Some(p)) => Some((p, MergeMetadata { has_global: false, has_project: true })),
        (Some(g), Some(p)) => {
            let mut m = to_chars(g.as_str());
            push_str(&mut m, "\n");
            push_str(&mut m, p.as_str());
            Some((from_chars(m.as_slice()), MergeMetadata { has_global: true, has_project: true }))
        },
    }
}

/// The settings of a run that the command line and the MCP server set: a Runfile given
/// on the command line, and the directory that long output for agents is saved in.
pub struct RunSettings {
    custom_runfile_path: Option<String>,
    mcp_output_dir: Option<String>,
    mcp_output_env: Option<String>,
}

/// The content of the settings.
pub struct SettingsView {
    pub custom_runfile_path: Option<Seq<char>>,
    pub mcp_output_dir: Option<Seq<char>>,
    pub mcp_output_env: Option<Seq<char>>,
}

impl View for RunSettings {
    type V = SettingsView;

    closed spec fn view(&self) -> SettingsView {
        SettingsView {
            custom_runfile_path: opt_view(self.custom_runfile_path),
            mcp_output_dir: opt_view(self.mcp_output_dir),
            mcp_output_env: opt_view(self.mcp_output_env),
        }
    }
}

fn copy_opt(o: &Option<String>) -> (r: Option<String>)
    ensures
        opt_view(r) == opt_view(*o),
{
    match o {
        Some(p) => Some(p.clone()),
        None => None,
    }
}

impl RunSettings {
    /// Settings with nothing set; `mcp_output_env` is the output directory named by the
    /// `RUN_MCP_OUTPUT_DIR` environment variable, if any.
    pub fn new(mcp_output_env: Option<String>) -> (r: RunSettings)
        ensures
            r@ == (SettingsView { custom_runfile_path: None, mcp_output_dir: None, mcp_output_env: opt_view(mcp_output_env) }),
    {
        RunSettings { custom_runfile_path: None, mcp_output_dir: None, mcp_output_env }
    }

    /// Set (or clear) the Runfile given on the command line.
    pub fn set_custom_runfile_path(&mut self, path: Option<String>)
        ensures
            final(self)@ == (SettingsView { custom_runfile_path: opt_view(path), ..old(self)@ }),
    {
        self.custom_runfile_path = path;
    }

    /// The Runfile given on the command line, if any.
    pub fn get_custom_runfile_path(&self) -> (r: Option<String>)
        ensures
            opt_view(r) == self@.custom_runfile_path,
    {
        copy_opt(&self.custom_runfile_path)
    }

    /// Set (or clear) the directory for long output.
    pub fn set_mcp_output_dir(&mut self, dir: Option<String>)
        ensures
            final(self)@ == (SettingsView { mcp_output_dir: opt_view(dir), ..old(self)@ }),
    {
        self.mcp_output_dir = dir;
    }

    /// The directory for long output, when it was set.
    pub fn mcp_output_dir(&self) -> (r: Option<String>)
        ensures
            opt_view(r) == self@.mcp_output_dir,
    {
        copy_opt(&self.mcp_output_dir)
    }

    /// The output directory named by the environment, if any.
    pub fn mcp_output_env(&self) -> (r: Option<String>)
        ensures
            opt_view(r) == self@.mcp_output_env,
    {
        copy_opt(&self.mcp_output_env)
    }

    /// Whether a directory for long output is set or named by the environment (which
    /// means the run serves an agent).
    pub fn is_mcp_output_configured(&self) -> (b: bool)
        ensures
            b == (self@.mcp_output_dir is Some || self@.mcp_output_env is Some),
    {
        self.mcp_output_dir.is_some() || self.mcp_output_env.is_some()
    }

    /// Whether long output is saved for an agent (see `is_mcp_output_configured`).
    pub fn is_mcp_output_enabled(&self) -> (b: bool)
        ensures
            b == (self@.mcp_output_dir is Some || self@.mcp_output_env is Some),
    {
        self.is_mcp_output_configured()
    }
}

} // verus!
