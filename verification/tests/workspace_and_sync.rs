use focus_pane::revision::{revision_for_source, FileRevision};
use focus_pane::sync::{external_changes, Observation, SourceWatch, SyncAction};
use focus_pane::workspace::{
    contains_glob, gather_workspace, initial_workspace_index, resolve_configured_path, same_path,
    ConfiguredFile, GlobEntry, WorkspaceDefinition,
};

#[test]
fn resolves_explicit_files_globs_and_warnings_without_repeats() {
    let configured = vec![
        ConfiguredFile::Plain("/w/a.md".to_string()),
        ConfiguredFile::Glob {
            pattern: "notes/*.md".to_string(),
            entries: vec![
                GlobEntry::File("/w/notes/b.md".to_string()),
                GlobEntry::File("/w/a.md".to_string()),
                GlobEntry::NotFile("/w/notes/dir.md".to_string()),
                GlobEntry::Unreadable("permission denied".to_string()),
            ],
        },
        ConfiguredFile::Glob { pattern: "missing/*.md".to_string(), entries: Vec::new() },
    ];
    let workspace = gather_workspace("Work".to_string(), &configured);
    assert_eq!(workspace.name, "Work");
    assert_eq!(workspace.files, vec!["/w/a.md", "/w/notes/b.md"]);
    assert_eq!(
        workspace.warnings,
        vec![
            "glob \"notes/*.md\" ignored non-file /w/notes/dir.md",
            "glob \"notes/*.md\" could not read an entry: permission denied",
            "glob \"missing/*.md\" matched no Markdown files",
        ]
    );
}

#[test]
fn a_glob_pattern_is_quoted_with_its_escapes() {
    let configured = vec![ConfiguredFile::Glob { pattern: "say \"hi\"/*.md".to_string(), entries: Vec::new() }];
    let workspace = gather_workspace("W".to_string(), &configured);
    assert_eq!(workspace.warnings, vec!["glob \"say \\\"hi\\\"/*.md\" matched no Markdown files"]);
}

#[test]
fn zero_config_keeps_the_resolved_task_file_as_a_single_workspace() {
    let single = WorkspaceDefinition::single("project".to_string(), "/w/project/TODO.md".to_string());
    assert_eq!(single.files, vec!["/w/project/TODO.md"]);
    assert!(single.warnings.is_empty());
    assert!(contains_glob("notes/*.md"));
    assert!(contains_glob("a?.md"));
    assert!(contains_glob("[ab].md"));
    assert!(!contains_glob("notes/a.md"));
}

#[test]
fn the_deepest_workspace_holding_the_working_directory_opens_first() {
    assert_eq!(initial_workspace_index(&vec![Some(2), None, Some(4), Some(4)]), 3);
    assert_eq!(initial_workspace_index(&vec![Some(3), Some(1)]), 0);
    assert_eq!(initial_workspace_index(&vec![None, None]), 0);
}

fn watch(known: Option<FileRevision>, error: Option<&str>) -> SourceWatch {
    SourceWatch {
        known,
        error: error.map(str::to_string),
        pending_revision: None,
        pending_error: None,
    }
}

#[test]
fn external_changes_in_any_aggregate_source_are_detected() {
    let a = revision_for_source(true, "- [ ] a\n");
    let b = revision_for_source(true, "- [ ] b\n");
    let b2 = revision_for_source(true, "- [ ] b changed\n");
    let watches = vec![watch(Some(a), None), watch(Some(b), None)];
    let same = vec![Observation::Revision(a), Observation::Revision(b)];
    let decision = external_changes(&watches, &same, false);
    assert!(decision.changed.is_empty());
    assert_eq!(decision.action, SyncAction::Nothing);
    let changed = vec![Observation::Revision(a), Observation::Revision(b2)];
    let decision = external_changes(&watches, &changed, false);
    assert_eq!(decision.changed, vec![1]);
    assert_eq!(decision.action, SyncAction::Reload);
}

#[test]
fn external_change_during_a_dialog_keeps_the_dialog_and_reports_once() {
    let a = revision_for_source(true, "- [ ] a\n");
    let a2 = revision_for_source(true, "- [ ] a\n- [ ] more\n");
    let mut watches = vec![watch(Some(a), None)];
    let seen = vec![Observation::Revision(a2)];
    let decision = external_changes(&watches, &seen, true);
    assert_eq!(decision.action, SyncAction::KeepDialog { report: true });
    watches[0].pending_revision = Some(a2);
    let decision = external_changes(&watches, &seen, true);
    assert_eq!(decision.action, SyncAction::KeepDialog { report: false });
}

#[test]
fn unreadable_markdown_source_is_reported_until_it_can_be_read() {
    let a = revision_for_source(true, "x");
    let watches = vec![watch(None, Some("denied"))];
    let again = vec![Observation::Failed("denied".to_string())];
    assert_eq!(external_changes(&watches, &again, false).action, SyncAction::Nothing);
    let other = vec![Observation::Failed("gone".to_string())];
    assert_eq!(external_changes(&watches, &other, false).action, SyncAction::Reload);
    let readable = vec![Observation::Revision(a)];
    assert_eq!(external_changes(&watches, &readable, false).changed, vec![0]);
}

#[test]
fn revisions_tell_contents_apart() {
    let empty = revision_for_source(true, "");
    assert_eq!(empty.length, 0);
    assert_eq!(empty.fingerprint, 0xcbf29ce484222325);
    let missing = revision_for_source(false, "");
    assert_ne!(empty, missing);
    let a = revision_for_source(true, "a");
    assert_eq!(a.length, 1);
    assert_eq!(a.fingerprint, 0xaf63dc4c8601ec8c);
}

#[test]
fn two_spellings_of_one_path_are_one_file() {
    assert!(same_path("/w/a//b.md", "/w/a/b.md"));
    assert!(same_path("/w/./a/b.md/", "/w/a/b.md"));
    assert!(!same_path("./a.md", "a.md"));
    assert!(!same_path("/w/../a.md", "/a.md"));
    assert!(!same_path("a.md", "/a.md"));
    let configured = vec![
        ConfiguredFile::Plain("/w/a//b.md".to_string()),
        ConfiguredFile::Glob {
            pattern: "/w/a/*.md".to_string(),
            entries: vec![GlobEntry::File("/w/a/b.md".to_string()), GlobEntry::File("/w/a/c.md".to_string())],
        },
    ];
    let workspace = gather_workspace("W".to_string(), &configured);
    assert_eq!(workspace.files, vec!["/w/a//b.md", "/w/a/c.md"]);
}

#[test]
fn configured_files_are_joined_to_the_configuration_directory() {
    let home = Some("/home/ada".to_string());
    assert_eq!(resolve_configured_path("notes/TODO.md", home.clone(), "/cfg"), "/cfg/notes/TODO.md");
    assert_eq!(resolve_configured_path("/abs/TODO.md", home.clone(), "/cfg"), "/abs/TODO.md");
    assert_eq!(resolve_configured_path("~/TODO.md", home.clone(), "/cfg"), "/home/ada/TODO.md");
    assert_eq!(resolve_configured_path("TODO.md", None, ""), "TODO.md");
}
