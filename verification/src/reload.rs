//! The reload orchestrator's decisions.
//!
//! A reload loads the cached palette, then — unless a step is
//! suppressed — applies the wallpaper, broadcasts the palette to the
//! terminals, and runs the user's scripts, in that order.  The caller
//! performs the filesystem and device work; this module fixes which steps
//! run, in what order, and how severe each failure is.

use crate::bytes::{trim_bytes, trim_spec};
use crate::lines::{lines_spec, split_lines};
use vstd::prelude::*;

verus! {

/// One step of a reload, after the palette has been loaded.
#[derive(Clone, Copy, Debug, PartialEq, Eq, Structural)]
pub enum ReloadStep {
    /// Read the wallpaper marker and hand its path to the wallpaper setter.
    SetWallpaper,
    /// Write the escape-sequence payload to every terminal device.
    BroadcastColors,
    /// Bootstrap the scripts directory if absent, then run every script.
    RunScripts,
}

/// The steps a reload runs for the given suppression flags.
pub open spec fn reload_plan(
    suppress_wallpaper: bool,
    suppress_colors: bool,
    suppress_scripts: bool,
) -> Seq<ReloadStep> {
    (if suppress_wallpaper {
        Seq::<ReloadStep>::empty()
    } else {
        seq![ReloadStep::SetWallpaper]
    }) + (if suppress_colors {
        Seq::<ReloadStep>::empty()
    } else {
        seq![ReloadStep::BroadcastColors]
    }) + (if suppress_scripts {
        Seq::<ReloadStep>::empty()
    } else {
        seq![ReloadStep::RunScripts]
    })
}

/// Sequences one reload: every step that is not suppressed, in the fixed
/// order wallpaper, colors, scripts.
pub fn reload_steps(
    suppress_wallpaper: bool,
    suppress_colors: bool,
    suppress_scripts: bool,
) -> (r: Vec<ReloadStep>)
    ensures
        r@ == reload_plan(suppress_wallpaper, suppress_colors, suppress_scripts),
{
    let mut r: Vec<ReloadStep> = Vec::new();
    if !suppress_wallpaper {
        r.push(ReloadStep::SetWallpaper);
    }
    if !suppress_colors {
        r.push(ReloadStep::BroadcastColors);
    }
    if !suppress_scripts {
        r.push(ReloadStep::RunScripts);
    }
    assert(r@ =~= reload_plan(suppress_wallpaper, suppress_colors, suppress_scripts));
    r
}

/// A condition a reload can run into.
#[derive(Clone, Copy, Debug, PartialEq, Eq, Structural)]
pub enum ReloadIssue {
    /// The palette cache is absent or invalid at reload time.
    MissingColorsCache,
    /// The wallpaper marker file cannot be read.
    MissingWallpaperMarker,
    /// The terminal device directory cannot be enumerated at all.
    MissingDeviceDirectory,
    /// A resolved theme name is not in the catalog.
    UnknownTheme,
    /// A write to one terminal device failed.
    DeviceWriteFailure,
    /// One script exited with a non-zero status.
    ScriptFailure,
    /// The scripts directory could not be bootstrapped.
    ScriptsBootstrapFailure,
    /// Writing the palette cache failed.
    CacheSaveFailure,
    /// A best-effort directory creation failed.
    DirectoryCreateFailure,
}

/// How the orchestrator reacts to an issue.
#[derive(Clone, Copy, Debug, PartialEq, Eq, Structural)]
pub enum Severity {
    /// Report and terminate the whole reload.
    Fatal,
    /// Report and continue with the next color, device, script or step.
    Warning,
    /// Continue without any diagnostic: the cache is disposable.
    Swallowed,
}

/// The severity of each issue.
pub open spec fn severity_spec(issue: ReloadIssue) -> Severity {
    match issue {
        ReloadIssue::MissingColorsCache => Severity::Fatal,
        ReloadIssue::MissingWallpaperMarker => Severity::Fatal,
        ReloadIssue::MissingDeviceDirectory => Severity::Fatal,
        ReloadIssue::UnknownTheme => Severity::Fatal,
        ReloadIssue::DeviceWriteFailure => Severity::Warning,
        ReloadIssue::ScriptFailure => Severity::Warning,
        ReloadIssue::ScriptsBootstrapFailure => Severity::Warning,
        ReloadIssue::CacheSaveFailure => Severity::Swallowed,
        ReloadIssue::DirectoryCreateFailure => Severity::Swallowed,
    }
}

/// Classifies an issue: missing inputs are fatal, single-device and
/// single-script failures only warn, and cache-write failures pass in
/// silence.
pub fn issue_severity(issue: ReloadIssue) -> (r: Severity)
    ensures
        r == severity_spec(issue),
{
    match issue {
        ReloadIssue::MissingColorsCache => Severity::Fatal,
        ReloadIssue::MissingWallpaperMarker => Severity::Fatal,
        ReloadIssue::MissingDeviceDirectory => Severity::Fatal,
        ReloadIssue::UnknownTheme => Severity::Fatal,
        ReloadIssue::DeviceWriteFailure => Severity::Warning,
        ReloadIssue::ScriptFailure => Severity::Warning,
        ReloadIssue::ScriptsBootstrapFailure => Severity::Warning,
        ReloadIssue::CacheSaveFailure => Severity::Swallowed,
        ReloadIssue::DirectoryCreateFailure => Severity::Swallowed,
    }
}

/// Extracts the wallpaper path from the marker file: the first line,
/// trimmed of surrounding whitespace.  A file without a single line has
/// no wallpaper — a fatal condition for the caller.
pub fn get_wallpaper(content: &Vec<u8>) -> (r: Option<Vec<u8>>)
    ensures
        lines_spec(content@).len() == 0 ==> r is None,
        lines_spec(content@).len() > 0 ==> (r matches Some(v) && v@ == trim_spec(
            lines_spec(content@)[0],
        )),
{
    let ls = split_lines(content);
    if ls.len() == 0 {
        None
    } else {
        Some(trim_bytes(&ls[0]))
    }
}

} // verus!
