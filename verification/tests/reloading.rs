use walrs::reload::{
    get_wallpaper, issue_severity, reload_steps, ReloadIssue, ReloadStep, Severity,
};

#[test]
fn full_reload_runs_all_steps_in_order() {
    let steps = reload_steps(false, false, false);
    assert_eq!(
        steps,
        vec![ReloadStep::SetWallpaper, ReloadStep::BroadcastColors, ReloadStep::RunScripts]
    );
}

#[test]
fn suppressed_steps_are_skipped() {
    assert_eq!(reload_steps(true, false, false), vec![
        ReloadStep::BroadcastColors,
        ReloadStep::RunScripts,
    ]);
    assert_eq!(reload_steps(false, true, true), vec![ReloadStep::SetWallpaper]);
    assert_eq!(reload_steps(true, true, true), Vec::<ReloadStep>::new());
}

#[test]
fn missing_inputs_are_fatal() {
    assert_eq!(issue_severity(ReloadIssue::MissingColorsCache), Severity::Fatal);
    assert_eq!(issue_severity(ReloadIssue::MissingWallpaperMarker), Severity::Fatal);
    assert_eq!(issue_severity(ReloadIssue::MissingDeviceDirectory), Severity::Fatal);
    assert_eq!(issue_severity(ReloadIssue::UnknownTheme), Severity::Fatal);
}

#[test]
fn single_failures_only_warn() {
    assert_eq!(issue_severity(ReloadIssue::DeviceWriteFailure), Severity::Warning);
    assert_eq!(issue_severity(ReloadIssue::ScriptFailure), Severity::Warning);
    assert_eq!(issue_severity(ReloadIssue::ScriptsBootstrapFailure), Severity::Warning);
}

#[test]
fn cache_write_failures_are_swallowed() {
    assert_eq!(issue_severity(ReloadIssue::CacheSaveFailure), Severity::Swallowed);
    assert_eq!(issue_severity(ReloadIssue::DirectoryCreateFailure), Severity::Swallowed);
}

#[test]
fn wallpaper_is_the_first_line_trimmed() {
    let content = b"  /home/u/pic.png \nsecond line\n".to_vec();
    assert_eq!(get_wallpaper(&content), Some(b"/home/u/pic.png".to_vec()));
}

#[test]
fn empty_marker_file_has_no_wallpaper() {
    assert_eq!(get_wallpaper(&b"".to_vec()), None);
}
