use focus_pane::config::{
    default_config_path, default_data_dir, default_db_path, default_preset_choice, expand_home,
    next_preset_index, preset_choice, validate_config, ConfigError, ConfigFacts, PresetChoice,
    PresetFacts, WorkspaceConfig,
};
use focus_pane::herdr::{format_countdown, sidebar_text, HerdrBridge};
use focus_pane::models::{TimerPhase, TaskPriority};
use focus_pane::store::FocusStore;
use focus_pane::models::TaskFocusSummary;
use focus_pane::timer::{
    can_queue_next_task, can_set_next_task, can_start_focus, completion_for, focus_choice,
    focus_completion, paused_phase, ready_focus_seconds, reset_had_no_cycle, reset_plan,
    resumed_phase, session_is_recorded, starting_cycle, stop_records_session, timer_key_action,
    undo_restores_queue, Completion, FocusChoice, PresetSnapshot, TimerKeyAction, TimerSettings,
};

fn settings() -> TimerSettings {
    TimerSettings {
        focus_seconds: 1500,
        break_seconds: 300,
        long_break_seconds: 900,
        cycles_before_long_break: 4,
        auto_start_break: true,
        auto_start_focus: false,
    }
}

fn unrecorded() -> PresetSnapshot {
    PresetSnapshot { focus_seconds: 0, break_seconds: 0, long_break_seconds: 0, cycles_before_long_break: 0 }
}

fn facts() -> ConfigFacts {
    ConfigFacts {
        task_file: "TODO.md".to_string(),
        focus_positive: true,
        breaks_positive: true,
        cycles_before_long_break: 4,
        default_preset: "classic".to_string(),
        presets: vec![
            PresetFacts { name: "classic".to_string(), durations_positive: true, cycles_before_long_break: 4 },
            PresetFacts { name: "deep".to_string(), durations_positive: true, cycles_before_long_break: 2 },
        ],
        workspaces: vec![WorkspaceConfig { name: "Work".to_string(), files: vec!["~/work/*.md".to_string()] }],
    }
}

#[test]
fn completed_focus_starts_a_break_and_every_fourth_is_long() {
    let first = focus_completion(0, &unrecorded(), &settings());
    assert_eq!(first.next_cycle, 1);
    assert!(!first.long_break);
    assert_eq!(first.break_seconds, 300);
    assert_eq!(first.break_phase, TimerPhase::Break);
    let fourth = focus_completion(3, &unrecorded(), &settings());
    assert_eq!(fourth.next_cycle, 0);
    assert!(fourth.long_break);
    assert_eq!(fourth.break_seconds, 900);
    let manual = TimerSettings { auto_start_break: false, ..settings() };
    assert_eq!(focus_completion(0, &unrecorded(), &manual).break_phase, TimerPhase::ReadyForBreak);
}

#[test]
fn a_preset_snapshot_overrides_the_configured_durations() {
    let deep = PresetSnapshot { focus_seconds: 3000, break_seconds: 600, long_break_seconds: 1200, cycles_before_long_break: 2 };
    let done = focus_completion(1, &deep, &settings());
    assert!(done.long_break);
    assert_eq!(done.break_seconds, 1200);
    assert_eq!(completion_for(TimerPhase::Break, 0, &deep, &settings()), Some(Completion::BreakCompleted(3000)));
    assert_eq!(completion_for(TimerPhase::Idle, 0, &deep, &settings()), None);
    assert_eq!(ready_focus_seconds(0, 1500), 1500);
    assert_eq!(ready_focus_seconds(3000, 1500), 3000);
}

#[test]
fn pausing_and_resuming_keep_the_kind_of_countdown() {
    assert_eq!(paused_phase(TimerPhase::Focus), Some(TimerPhase::PausedFocus));
    assert_eq!(paused_phase(TimerPhase::Break), Some(TimerPhase::PausedBreak));
    assert_eq!(paused_phase(TimerPhase::ReadyForBreak), None);
    assert_eq!(resumed_phase(TimerPhase::PausedFocus), Some(TimerPhase::Focus));
    assert_eq!(resumed_phase(TimerPhase::Idle), None);
    assert_eq!(timer_key_action(TimerPhase::Focus), TimerKeyAction::Pause);
    assert_eq!(timer_key_action(TimerPhase::PausedBreak), TimerKeyAction::Resume);
    assert_eq!(timer_key_action(TimerPhase::ReadyForBreak), TimerKeyAction::StartBreak);
    assert_eq!(timer_key_action(TimerPhase::ReadyForFocus), TimerKeyAction::StartFocus);
    assert_eq!(timer_key_action(TimerPhase::Idle), TimerKeyAction::NothingToDo);
}

#[test]
fn reset_restarts_the_current_countdown() {
    assert_eq!(reset_plan(TimerPhase::PausedFocus, 2, &unrecorded(), &settings()), Some((TimerPhase::Focus, 1500)));
    assert_eq!(reset_plan(TimerPhase::Break, 0, &unrecorded(), &settings()), Some((TimerPhase::Break, 900)));
    assert_eq!(reset_plan(TimerPhase::PausedBreak, 2, &unrecorded(), &settings()), Some((TimerPhase::Break, 300)));
    assert_eq!(reset_plan(TimerPhase::Idle, 0, &unrecorded(), &settings()), None);
    assert!(reset_had_no_cycle(TimerPhase::ReadyForFocus));
    assert!(!reset_had_no_cycle(TimerPhase::Focus));
}

#[test]
fn enter_queues_the_selected_task_during_a_break() {
    assert_eq!(focus_choice(TimerPhase::Break, false), FocusChoice::QueueNext);
    assert_eq!(focus_choice(TimerPhase::Idle, false), FocusChoice::StartCycle);
    assert_eq!(focus_choice(TimerPhase::ReadyForFocus, false), FocusChoice::StartReadyFocus);
    assert_eq!(focus_choice(TimerPhase::Idle, true), FocusChoice::RefuseCompleted);
    assert!(can_queue_next_task(TimerPhase::Break));
    assert!(can_start_focus(TimerPhase::Idle));
    assert!(!can_start_focus(TimerPhase::Break));
    assert!(!can_set_next_task(TimerPhase::Idle));
}

#[test]
fn undoing_a_completion_restores_the_queue_only_in_the_same_cycle() {
    let id = Some("timer-1".to_string());
    assert!(undo_restores_queue(&id, TimerPhase::Break, "timer-1"));
    assert!(!undo_restores_queue(&id, TimerPhase::Break, "timer-2"));
    assert!(!undo_restores_queue(&id, TimerPhase::Idle, "timer-1"));
    assert!(!undo_restores_queue(&None, TimerPhase::Break, "timer-1"));
}

#[test]
fn sessions_are_recorded_only_with_time_and_a_task() {
    let some = |s: &str| Some(s.to_string());
    assert!(session_is_recorded(10, &some("id"), &some("Write"), &some("/w/TODO.md")));
    assert!(!session_is_recorded(0, &some("id"), &some("Write"), &some("/w/TODO.md")));
    assert!(!session_is_recorded(10, &None, &some("Write"), &some("/w/TODO.md")));
    assert_eq!(stop_records_session(TimerPhase::Focus).0, true);
    assert_eq!(starting_cycle(3, "classic", Some("classic")), 3);
    assert_eq!(starting_cycle(3, "classic", Some("deep")), 0);
}

#[test]
fn the_configuration_is_checked_in_order() {
    assert_eq!(validate_config(&facts()), Ok(()));
    let mut blank = facts();
    blank.task_file = "   ".to_string();
    assert_eq!(validate_config(&blank), Err(ConfigError::EmptyTaskFile));
    let mut duplicate = facts();
    duplicate.presets[1].name = "classic".to_string();
    assert_eq!(validate_config(&duplicate), Err(ConfigError::DuplicatePreset(1)));
    let mut unknown = facts();
    unknown.default_preset = "none".to_string();
    assert_eq!(validate_config(&unknown), Err(ConfigError::UnknownDefaultPreset));
    let mut empty = facts();
    empty.workspaces[0].files.clear();
    assert_eq!(validate_config(&empty), Err(ConfigError::EmptyWorkspace(0)));
    let mut zero = facts();
    zero.cycles_before_long_break = 0;
    assert_eq!(validate_config(&zero), Err(ConfigError::ZeroCycles));
}

#[test]
fn named_focus_presets_are_selected_by_name_and_cycle() {
    let names = vec!["classic".to_string(), "deep".to_string()];
    assert_eq!(preset_choice(&names, &"classic".to_string(), &"deep".to_string()), PresetChoice::Configured(1));
    assert_eq!(preset_choice(&names, &"classic".to_string(), &"none".to_string()), PresetChoice::Missing);
    assert_eq!(default_preset_choice(&names, &"gone".to_string()), PresetChoice::Configured(0));
    assert_eq!(default_preset_choice(&Vec::new(), &"classic".to_string()), PresetChoice::Legacy);
    assert_eq!(next_preset_index(&names, &"deep".to_string()), 0);
    assert_eq!(next_preset_index(&names, &"classic".to_string()), 1);
    assert_eq!(next_preset_index(&names, &"other".to_string()), 1);
}

#[test]
fn standard_paths_follow_xdg_variables_and_home() {
    let home = Some("/home/ada".to_string());
    assert_eq!(default_config_path(None, home.clone()), "/home/ada/.config/focus-pane/config.toml");
    assert_eq!(default_config_path(Some("/cfg".to_string()), home.clone()), "/cfg/focus-pane/config.toml");
    assert_eq!(default_data_dir(None, home.clone()), "/home/ada/.local/share/focus-pane");
    assert_eq!(default_db_path(Some("/data".to_string()), home.clone()), "/data/focus-pane/focus.db");
    assert_eq!(expand_home("~/notes/TODO.md", home.clone()), "/home/ada/notes/TODO.md");
    assert_eq!(expand_home("~", home.clone()), "/home/ada");
    assert_eq!(expand_home("~/x", None), "~/x");
    assert_eq!(expand_home("~//x", home.clone()), "/x");
    assert_eq!(expand_home("~/", home.clone()), "/home/ada/");
    assert_eq!(default_config_path(Some("/cfg/".to_string()), home.clone()), "/cfg/focus-pane/config.toml");
}

#[test]
fn herdr_messages_name_the_phase_and_the_task() {
    assert_eq!(format_countdown(1499), "24:59");
    assert_eq!(format_countdown(6000), "100:00");
    assert_eq!(sidebar_text(TimerPhase::Focus, 65, "", Some("Write")), Some("● focus 01:05 [legacy] · Write".to_string()));
    assert_eq!(sidebar_text(TimerPhase::PausedBreak, 5, "deep", None), Some("Ⅱ break 00:05".to_string()));
    assert_eq!(sidebar_text(TimerPhase::Idle, 5, "deep", None), None);
    let bridge = HerdrBridge { binary: "herdr".to_string(), available: true };
    let args = bridge.notify_break_complete(Some("Write"), true).unwrap();
    assert_eq!(args[4], "Break complete. Return to \"Write\" with one small step.");
    assert_eq!(args[8], "request");
    let cleared = bridge.clear_sidebar(Some("p1")).unwrap();
    assert_eq!(cleared, vec!["pane", "report-metadata", "p1", "--source", "focus-pane", "--clear-token", "focus"]);
    let absent = HerdrBridge { binary: "herdr".to_string(), available: false };
    assert_eq!(absent.notify_focus_complete(None, true), None);
}

#[test]
fn phase_names_round_trip_and_ready_is_the_legacy_name() {
    for phase in [TimerPhase::Idle, TimerPhase::Focus, TimerPhase::PausedFocus, TimerPhase::Break, TimerPhase::PausedBreak, TimerPhase::ReadyForBreak, TimerPhase::ReadyForFocus] {
        assert_eq!(TimerPhase::parse(phase.as_str()), Some(phase));
    }
    assert_eq!(TimerPhase::parse("ready"), Some(TimerPhase::ReadyForFocus));
    assert_eq!(TimerPhase::parse("paused"), None);
    assert_eq!(TaskPriority::parse("medium"), Some(TaskPriority::Medium));
    assert_eq!(TaskPriority::High.as_str(), "high");
}

#[test]
fn totals_are_the_total_seconds_of_each_summary() {
    let store = FocusStore::at("/data/focus.db".to_string());
    assert_eq!(store.path(), "/data/focus.db");
    let summary = TaskFocusSummary { total_seconds: 90, completed_seconds: 60, stopped_seconds: 30, completed_sessions: 1, stopped_sessions: 1 };
    let totals = store.totals_for_tasks(&vec![("a".to_string(), summary)]);
    assert_eq!(totals, vec![("a".to_string(), 90)]);
}
