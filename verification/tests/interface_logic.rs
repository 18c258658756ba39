use focus_pane::models::TaskFocusSummary;
use focus_pane::store::{completion_variance, EstimateVariance};
use focus_pane::commands::{all_commands, command_for_input, command_spec, footer_label, CommandId, KeyInput};
use focus_pane::input::{parse_estimate, EstimateInput, TextInput};
use focus_pane::interface::{
    centered_modal, command_available, completion_follow_up, CompletionFollowUp, compact_status, cursor_column, footer_lines, help_down,
    move_selection, next_open_after, next_source_view, next_workspace, palette_commands,
    palette_down, scroll_start, selected_task, visible_task_count, AvailabilityFacts, InputMode,
    Rect, ViewportMode,
};
use focus_pane::models::{Task, TimerPhase};
use focus_pane::repository::MarkdownTaskRepository;
use focus_pane::rows::{
    build_task_list, group_title, is_next_task, row_marker, select_row, Row, RowMarker,
    SourceStatus, TaskFilter,
};
use focus_pane::search::{due_text, task_matches};
use focus_pane::models::DueDate;

fn tasks_of(path: &str, text: &str) -> Vec<Task> {
    MarkdownTaskRepository::new(path.to_string()).parse_tasks(text)
}

fn facts() -> AvailabilityFacts {
    AvailabilityFacts {
        visible_tasks: 2,
        has_selection: true,
        can_undo: false,
        has_active_source: true,
        workspaces: 1,
        sources: 1,
        presets: 2,
    }
}

fn list(tasks: &Vec<Task>, filter: TaskFilter, query: &str, key: Option<String>) -> focus_pane::rows::TaskList {
    let labels = tasks.iter().map(|_| "work/TODO.md".to_string()).collect::<Vec<_>>();
    let sources = vec![SourceStatus { failed: false, exists: true }];
    build_task_list(tasks, &labels, filter, query, 0, &sources, None, &None, &None, TimerPhase::Idle, &key)
}

#[test]
fn blocked_tasks_can_be_found_by_searching_for_blocked() {
    let tasks = tasks_of(
        "/w/TODO.md",
        "# Plan\n- [ ] Write <!-- focus:status=blocked -->\n- [ ] Read\n",
    );
    assert!(task_matches(&tasks[0], "blocked"));
    assert!(!task_matches(&tasks[1], "blocked"));
    let shown = list(&tasks, TaskFilter::Open, "blocked", None);
    assert_eq!(
        shown.rows,
        vec![
            Row::Heading { first: 0, count: 1 },
            Row::Entry { task: 0, last: true, marker: RowMarker::Blocked },
        ]
    );
    assert_eq!(shown.selected, Some(1));
}

#[test]
fn search_compares_in_lower_case_and_looks_at_heading_priority_and_due_date() {
    let tasks = tasks_of(
        "/w/TODO.md",
        "# Errands\n- [ ] Buy MILK <!-- focus:priority=low due=2026-04-01 -->\n",
    );
    let task = &tasks[0];
    assert!(task_matches(task, "milk"));
    assert!(task_matches(task, "errand"));
    assert!(task_matches(task, "low"));
    assert!(task_matches(task, "2026-04"));
    assert!(task_matches(task, ""));
    assert!(!task_matches(task, "bread"));
    let accented = tasks_of("/w/TODO.md", "- [ ] ÄRGER\n");
    assert!(task_matches(&accented[0], "ärger"));
    let shown = list(&tasks, TaskFilter::Open, "MILK", None);
    assert_eq!(shown.rows.len(), 2);
}

#[test]
fn due_dates_read_as_four_digit_years_or_signed_years() {
    assert_eq!(due_text(DueDate { year: 2026, month: 4, day: 1 }), "2026-04-01");
    assert_eq!(due_text(DueDate { year: 7, month: 12, day: 31 }), "0007-12-31");
    assert_eq!(due_text(DueDate { year: 12345, month: 6, day: 7 }), "+12345-06-07");
    assert_eq!(due_text(DueDate { year: -44, month: 3, day: 15 }), "-0044-03-15");
}

#[test]
fn the_list_groups_tasks_under_headings_in_order_of_first_appearance() {
    let tasks = tasks_of(
        "/w/TODO.md",
        "# A\n- [ ] one\n# B\n- [ ] two\n# A\n- [x] three\n- [ ] four\n",
    );
    let open = list(&tasks, TaskFilter::Open, "", None);
    assert_eq!(
        open.rows,
        vec![
            Row::Heading { first: 0, count: 2 },
            Row::Entry { task: 0, last: false, marker: RowMarker::Open },
            Row::Entry { task: 3, last: true, marker: RowMarker::Open },
            Row::Heading { first: 1, count: 1 },
            Row::Entry { task: 1, last: true, marker: RowMarker::Open },
        ]
    );
    let all = list(&tasks, TaskFilter::All, "", Some(tasks[2].key()));
    assert_eq!(all.rows.len(), 6);
    assert_eq!(all.rows[2], Row::Entry { task: 2, last: false, marker: RowMarker::Done });
    assert_eq!(all.selected, Some(2));
    let done = list(&tasks, TaskFilter::Completed, "", None);
    assert_eq!(done.rows, vec![Row::Heading { first: 2, count: 1 }, Row::Entry { task: 2, last: true, marker: RowMarker::Done }]);
}

#[test]
fn aggregate_view_groups_duplicate_headings_by_source() {
    let mut tasks = tasks_of("/w/a/TODO.md", "# Today\n- [ ] from a\n");
    tasks.extend(tasks_of("/w/b/TODO.md", "# Today\n- [ ] from b\n"));
    let labels = vec!["a/TODO.md".to_string(), "b/TODO.md".to_string()];
    let sources = vec![SourceStatus { failed: false, exists: true }, SourceStatus { failed: true, exists: true }];
    let shown = build_task_list(&tasks, &labels, TaskFilter::Open, "", 1, &sources, None, &None, &None, TimerPhase::Idle, &None);
    assert_eq!(
        shown.rows,
        vec![
            Row::Warning(0),
            Row::SourceError(1),
            Row::Heading { first: 0, count: 1 },
            Row::Entry { task: 0, last: true, marker: RowMarker::Open },
            Row::Heading { first: 1, count: 1 },
            Row::Entry { task: 1, last: true, marker: RowMarker::Open },
        ]
    );
    assert_eq!(shown.selected, Some(3));
    assert_eq!(group_title(&tasks[1], "b/TODO.md", true), "b/TODO.md › Today");
    assert_eq!(group_title(&tasks[1], "b/TODO.md", false), "Today");
    let single = build_task_list(&tasks, &labels, TaskFilter::Open, "", 0, &sources, Some(0), &None, &None, TimerPhase::Idle, &None);
    assert_eq!(single.rows[0], Row::Heading { first: 0, count: 2 });
}

#[test]
fn missing_sources_are_listed_and_a_list_without_tasks_has_no_selection() {
    let tasks: Vec<Task> = Vec::new();
    let labels: Vec<String> = Vec::new();
    let sources = vec![SourceStatus { failed: false, exists: false }];
    let shown = build_task_list(&tasks, &labels, TaskFilter::Open, "", 0, &sources, None, &None, &None, TimerPhase::Idle, &None);
    assert_eq!(shown.rows, vec![Row::SourceMissing(0)]);
    assert_eq!(shown.selected, None);
}

#[test]
fn the_queued_task_is_marked_outside_focus() {
    let tasks = tasks_of("/w/TODO.md", "- [ ] next <!-- focus:id=n1 -->\n- [ ] other\n");
    let id = Some("n1".to_string());
    let path = Some("/w/TODO.md".to_string());
    assert!(is_next_task(&tasks[0], &id, &path));
    assert!(!is_next_task(&tasks[1], &id, &path));
    assert!(!is_next_task(&tasks[0], &id, &Some("/w/OTHER.md".to_string())));
    assert_eq!(row_marker(&tasks[0], true, TimerPhase::Break), RowMarker::Queued);
    assert_eq!(row_marker(&tasks[0], true, TimerPhase::ReadyForFocus), RowMarker::Queued);
    assert_eq!(row_marker(&tasks[0], true, TimerPhase::Focus), RowMarker::Open);
    assert_eq!(row_marker(&tasks[0], false, TimerPhase::Break), RowMarker::Open);
}

#[test]
fn the_filter_cycles_through_open_completed_and_all() {
    assert_eq!(TaskFilter::Open.next(), TaskFilter::Completed);
    assert_eq!(TaskFilter::Completed.next(), TaskFilter::All);
    assert_eq!(TaskFilter::All.next(), TaskFilter::Open);
    assert_eq!(TaskFilter::Completed.label(), "completed");
    assert!(TaskFilter::Open.accepts(false) && !TaskFilter::Open.accepts(true));
}

#[test]
fn selection_moves_between_task_rows_and_stays_at_the_ends() {
    let rows = vec![
        Row::Heading { first: 0, count: 1 },
        Row::Entry { task: 0, last: true, marker: RowMarker::Open },
        Row::Heading { first: 1, count: 1 },
        Row::Entry { task: 1, last: true, marker: RowMarker::Open },
    ];
    assert_eq!(move_selection(&rows, Some(1), true), Some(3));
    assert_eq!(move_selection(&rows, Some(3), true), Some(3));
    assert_eq!(move_selection(&rows, Some(3), false), Some(1));
    assert_eq!(move_selection(&rows, Some(1), false), Some(1));
    assert_eq!(move_selection(&rows, None, true), Some(1));
    assert_eq!(move_selection(&Vec::new(), Some(2), true), None);
    assert_eq!(selected_task(&rows, Some(3)), Some(1));
    assert_eq!(selected_task(&rows, Some(2)), None);
    assert_eq!(visible_task_count(&rows), 2);
}

#[test]
fn a_kept_key_selects_its_task_row() {
    let tasks = tasks_of("/w/TODO.md", "- [ ] a <!-- focus:id=a -->\n- [ ] b <!-- focus:id=b -->\n");
    let rows = vec![
        Row::Heading { first: 0, count: 2 },
        Row::Entry { task: 0, last: false, marker: RowMarker::Open },
        Row::Entry { task: 1, last: true, marker: RowMarker::Open },
    ];
    assert_eq!(select_row(&rows, &tasks, &Some(tasks[1].key())), Some(2));
    assert_eq!(select_row(&rows, &tasks, &Some("gone".to_string())), Some(1));
    assert_eq!(tasks[1].key(), "/w/TODO.md\u{1f}b");
}

#[test]
fn completing_a_task_queues_the_next_open_task_wrapping_round() {
    let tasks = tasks_of("/w/TODO.md", "- [ ] a\n- [x] b\n- [x] c\n- [ ] d\n");
    assert_eq!(next_open_after(&tasks, &tasks[3].key()), Some(0));
    assert_eq!(next_open_after(&tasks, &tasks[0].key()), Some(3));
    assert_eq!(next_open_after(&tasks, "missing"), None);
}

#[test]
fn command_palette_filters_registry_commands() {
    let idle = Some(TimerPhase::Idle);
    let found = palette_commands(facts(), idle, "TASK");
    assert!(found.contains(&CommandId::AppendTask));
    assert!(found.contains(&CommandId::StartTasklessFocus));
    assert!(!found.contains(&CommandId::StopTimer));
    assert!(!found.contains(&CommandId::SelectNext));
    let all = palette_commands(facts(), idle, "");
    assert_eq!(all[0], CommandId::Search);
    assert!(!all.contains(&CommandId::OpenPalette));
    assert!(palette_commands(facts(), idle, "zzz").is_empty());
    let running = palette_commands(facts(), Some(TimerPhase::Focus), "stop");
    assert_eq!(running, vec![CommandId::StopTimer, CommandId::Quit]);
}

#[test]
fn commands_are_available_only_when_they_can_act() {
    let f = facts();
    assert!(command_available(CommandId::StartTasklessFocus, f, Some(TimerPhase::Idle)));
    assert!(!command_available(CommandId::StartTasklessFocus, f, Some(TimerPhase::Break)));
    assert!(!command_available(CommandId::StopTimer, f, Some(TimerPhase::Idle)));
    assert!(!command_available(CommandId::StopTimer, f, None));
    assert!(command_available(CommandId::ResetTimer, f, Some(TimerPhase::PausedBreak)));
    assert!(!command_available(CommandId::ResetTimer, f, Some(TimerPhase::ReadyForBreak)));
    assert!(!command_available(CommandId::UndoCompletion, f, None));
    assert!(!command_available(CommandId::CycleWorkspace, f, None));
    assert!(command_available(CommandId::CyclePreset, f, Some(TimerPhase::Idle)));
    assert!(command_available(CommandId::Quit, f, None));
}

#[test]
fn question_mark_and_keys_map_to_registry_commands() {
    assert_eq!(command_for_input(KeyInput::Char('?'), false), Some(CommandId::OpenHelp));
    assert_eq!(command_for_input(KeyInput::Char('P'), false), Some(CommandId::CyclePreset));
    assert_eq!(command_for_input(KeyInput::Char('p'), true), None);
    assert_eq!(command_for_input(KeyInput::Tab, false), Some(CommandId::CycleFilter));
    assert_eq!(command_spec(CommandId::Search).key_label, "/");
    assert_eq!(footer_label(CommandId::FocusSelected), "focus/next");
}

#[test]
fn the_footer_wraps_hints_into_the_lines_that_fit() {
    let lines = footer_lines(facts(), Some(TimerPhase::Idle), 40, 2);
    assert_eq!(lines.len(), 2);
    assert_eq!(lines[0], vec![CommandId::OpenPalette, CommandId::OpenHelp, CommandId::FocusSelected]);
    assert_eq!(lines[1][0], CommandId::ToggleDone);
    let compact = footer_lines(facts(), Some(TimerPhase::Idle), 200, 1);
    assert_eq!(compact.len(), 1);
    let wide = footer_lines(facts(), Some(TimerPhase::Focus), 1000, 2);
    assert_eq!(wide.len(), 1);
    assert!(wide[0].contains(&CommandId::StartPauseResume));
    assert!(!wide[0].contains(&CommandId::StartTasklessFocus));
}

#[test]
fn dialogs_are_centred_within_the_screen() {
    let area = Rect { x: 0, y: 0, width: 100, height: 30 };
    assert_eq!(centered_modal(area, 68, 7), Rect { x: 16, y: 11, width: 68, height: 7 });
    let small = Rect { x: 5, y: 2, width: 20, height: 4 };
    assert_eq!(centered_modal(small, 68, 7), Rect { x: 6, y: 3, width: 18, height: 2 });
    let tiny = Rect { x: 0, y: 0, width: 1, height: 0 };
    assert_eq!(centered_modal(tiny, 68, 7), Rect { x: 0, y: 0, width: 1, height: 0 });
    assert_eq!(ViewportMode::for_area(71, 40), ViewportMode::Compact);
    assert_eq!(ViewportMode::for_area(80, 17), ViewportMode::Compact);
    assert_eq!(ViewportMode::for_area(80, 24), ViewportMode::Normal);
    assert_eq!(ViewportMode::for_area(110, 24), ViewportMode::Wide);
}

#[test]
fn edit_modal_supports_inserting_at_the_cursor() {
    let mut field = TextInput::with_text("Wrte");
    field.left();
    field.left();
    field.insert('i');
    assert_eq!(field.text(), "Write");
    assert_eq!(field.cursor(), 3);
    field.end();
    field.insert('!');
    field.home();
    field.delete();
    assert_eq!(field.text(), "rite!");
    field.backspace();
    assert_eq!(field.text(), "rite!");
    field.right();
    field.backspace();
    assert_eq!(field.text(), "ite!");
    assert!(!field.is_blank());
    field.clear();
    assert_eq!(field.text(), "");
    assert!(field.is_blank());
    let restored = TextInput::restored("abc", 9);
    assert_eq!(restored.cursor(), 3);
    let mut unicode = TextInput::new();
    unicode.insert('é');
    unicode.insert('ß');
    unicode.left();
    unicode.backspace();
    assert_eq!(unicode.text(), "ß");
}

#[test]
fn estimates_are_positive_counts_and_empty_or_zero_clears() {
    assert_eq!(parse_estimate("  4 "), EstimateInput::Estimate(4));
    assert_eq!(parse_estimate(""), EstimateInput::Clear);
    assert_eq!(parse_estimate("0"), EstimateInput::Clear);
    assert_eq!(parse_estimate("00"), EstimateInput::Invalid);
    assert_eq!(parse_estimate("-1"), EstimateInput::Invalid);
    assert_eq!(parse_estimate("many"), EstimateInput::Invalid);
}

#[test]
fn views_and_workspaces_cycle() {
    assert_eq!(next_source_view(None, 2), Some(0));
    assert_eq!(next_source_view(Some(0), 2), Some(1));
    assert_eq!(next_source_view(Some(1), 2), None);
    assert_eq!(next_workspace(2, 3), 0);
    assert_eq!(next_workspace(0, 3), 1);
}

#[test]
fn palette_and_help_scrolling_stay_in_range() {
    assert_eq!(palette_down(0, 3), 1);
    assert_eq!(palette_down(2, 3), 2);
    assert_eq!(palette_down(5, 0), 5);
    assert_eq!(scroll_start(7, 5), 3);
    assert_eq!(scroll_start(2, 5), 0);
    assert_eq!(help_down(0), 1);
    assert_eq!(help_down(26), 26);
    assert_eq!(cursor_column(10, 20, 3), 15);
    assert_eq!(cursor_column(10, 4, 30), 13);
}

#[test]
fn the_one_line_status_prefers_the_message() {
    let tasks = tasks_of("/w/TODO.md", "\n\n- [ ] Plan <!-- focus:status=blocked -->\n");
    assert_eq!(compact_status("saved", Some(&tasks[0])), "saved");
    assert_eq!(compact_status("", Some(&tasks[0])), "Plan · line 3 · blocked");
    assert_eq!(compact_status("", None), "no matching tasks");
}

#[test]
fn text_dialogs_have_titles_and_only_dialogs_hold_off_reloads() {
    assert_eq!(InputMode::Add.dialog_texts(), Some((" Add a Markdown task ", "What needs to be done?", "add")));
    assert_eq!(InputMode::Help.dialog_texts(), None);
    assert!(InputMode::DeleteConfirm.is_dialog());
    assert!(!InputMode::Search.is_dialog());
}

#[test]
fn interleaved_headings_group_each_task_once() {
    let tasks = tasks_of(
        "/w/TODO.md",
        "# A\n- [ ] One\n# B\n- [ ] Two\n# A\n- [ ] Three\n- [x] Four\n",
    );
    let shown = list(&tasks, TaskFilter::All, "", None);
    assert_eq!(
        shown.rows,
        vec![
            Row::Heading { first: 0, count: 3 },
            Row::Entry { task: 0, last: false, marker: RowMarker::Open },
            Row::Entry { task: 2, last: false, marker: RowMarker::Open },
            Row::Entry { task: 3, last: true, marker: RowMarker::Done },
            Row::Heading { first: 1, count: 1 },
            Row::Entry { task: 1, last: true, marker: RowMarker::Open },
        ]
    );
    let mut seen = Vec::new();
    for row in &shown.rows {
        if let Row::Entry { task, .. } = row {
            assert!(!seen.contains(task));
            seen.push(*task);
        }
    }
    assert_eq!(seen.len(), tasks.len());
}

#[test]
fn every_key_runs_the_command_whose_key_label_names_it() {
    let keys = [
        (KeyInput::Char('j'), CommandId::SelectNext),
        (KeyInput::Down, CommandId::SelectNext),
        (KeyInput::Char('k'), CommandId::SelectPrevious),
        (KeyInput::Up, CommandId::SelectPrevious),
        (KeyInput::Enter, CommandId::FocusSelected),
        (KeyInput::Char(' '), CommandId::ToggleDone),
        (KeyInput::Char('E'), CommandId::EstimateTask),
        (KeyInput::Char('e'), CommandId::EditTask),
        (KeyInput::Char('>'), CommandId::IndentTask),
        (KeyInput::Char('<'), CommandId::OutdentTask),
        (KeyInput::Char('q'), CommandId::Quit),
    ];
    for (key, command) in keys {
        assert_eq!(command_for_input(key, false), Some(command));
    }
    assert_eq!(command_for_input(KeyInput::Char('x'), false), None);
    assert_eq!(command_for_input(KeyInput::Other, false), None);
    assert_eq!(command_for_input(KeyInput::Enter, true), Some(CommandId::FocusSelected));
    assert_eq!(command_for_input(KeyInput::Char('q'), true), None);
    assert_eq!(all_commands().len(), 27);
    for command in all_commands() {
        let spec = command_spec(command);
        if spec.key_label.chars().count() == 1 {
            let c = spec.key_label.chars().next().unwrap();
            assert_eq!(command_for_input(KeyInput::Char(c), false), Some(command));
        }
    }
}

#[test]
fn completing_during_a_timer_queues_the_next_open_task() {
    let tasks = tasks_of("/w/TODO.md", "- [x] One\n- [x] Two\n- [ ] Three\n");
    let key = tasks[0].key();
    assert_eq!(completion_follow_up(true, TimerPhase::Focus, &tasks, &key), CompletionFollowUp::QueueNext(2));
    assert_eq!(completion_follow_up(true, TimerPhase::Idle, &tasks, &key), CompletionFollowUp::CompletedIdle);
    assert_eq!(completion_follow_up(false, TimerPhase::Focus, &tasks, &key), CompletionFollowUp::Reopened);
    let done = tasks_of("/w/TODO.md", "- [x] One\n- [x] Two\n");
    assert_eq!(
        completion_follow_up(true, TimerPhase::Break, &done, &done[0].key()),
        CompletionFollowUp::ClearQueue
    );
}

#[test]
fn a_completed_estimate_is_over_under_or_on() {
    let done = tasks_of("/w/TODO.md", "- [x] Done <!-- focus:estimate=2 -->\n- [ ] Open <!-- focus:estimate=2 -->\n- [x] Plain\n");
    let summary = |total: u64| TaskFocusSummary { total_seconds: total, ..TaskFocusSummary::default() };
    assert_eq!(completion_variance(&done[0], &summary(3000), 1500), Some(EstimateVariance::OnEstimate));
    assert_eq!(completion_variance(&done[0], &summary(3600), 1500), Some(EstimateVariance::Over(600)));
    assert_eq!(completion_variance(&done[0], &summary(2250), 1500), Some(EstimateVariance::Under(750)));
    assert_eq!(completion_variance(&done[0], &summary(5), u64::MAX), Some(EstimateVariance::Under(u64::MAX - 5)));
    assert_eq!(completion_variance(&done[1], &summary(3600), 1500), None);
    assert_eq!(completion_variance(&done[2], &summary(3600), 1500), None);
}
