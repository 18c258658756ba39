use focus_pane::config::{default_data_dir, resolve_task_file};
use focus_pane::lines::{join_lines, split_lines_inclusive};
use focus_pane::models::{Task, TaskPriority};
use focus_pane::mutations::{IndentDirection, MarkdownError, MoveDirection};
use focus_pane::repository::MarkdownTaskRepository;
use focus_pane::search::due_text;

fn repository() -> MarkdownTaskRepository {
    MarkdownTaskRepository::new("/work/TODO.md".to_string())
}

fn read(text: &str) -> Vec<Task> {
    repository().parse_tasks(text)
}

fn lines(text: &str) -> Vec<String> {
    split_lines_inclusive(text)
}

#[test]
fn reads_python_markdown_format_with_headings_indentation_and_ids() {
    let tasks = read("# Today\n\n- [ ] Write parser\n  * [X] Add tests <!-- focus:id=known-id -->\n");

    assert_eq!(tasks.len(), 2);
    assert_eq!(tasks[0].text, "Write parser");
    assert!(!tasks[0].checked);
    assert_eq!(tasks[0].heading.as_deref(), Some("Today"));
    assert_eq!(tasks[1].text, "Add tests");
    assert!(tasks[1].checked);
    assert_eq!(tasks[1].task_id.as_deref(), Some("known-id"));
    assert_eq!(tasks[1].indent, 2);
}

#[test]
fn parses_rich_focus_metadata_and_standard_hashtags_without_showing_comments() {
    let task = read(
        "- [ ] Read chapter #study #course/distsys \
         <!-- focus:estimate=3 status=blocked priority=high due=2026-04-01 unknown=keep --> \
         <!-- focus:id=rich-task -->\n",
    )
    .remove(0);

    assert_eq!(task.text, "Read chapter #study #course/distsys");
    assert_eq!(task.task_id.as_deref(), Some("rich-task"));
    assert_eq!(task.metadata.tags, ["study", "course/distsys"]);
    assert_eq!(task.metadata.priority, Some(TaskPriority::High));
    assert_eq!(task.metadata.due_date.map(due_text), Some("2026-04-01".into()));
    assert_eq!(task.metadata.estimate_pomodoros, Some(3));
    assert!(task.metadata.blocked);
}

#[test]
fn toggles_only_the_checkbox_and_keeps_python_hidden_id_format() {
    let original = "- [ ] Keep **all** formatting <!-- focus:id=abc -->\n";
    let mut file = lines(original);
    let task = read(original).remove(0);

    repository().toggle(&mut file, &task).unwrap();

    let markdown = join_lines(&file);
    assert!(read(&markdown)[0].checked);
    assert_eq!(markdown, original.replace("[ ]", "[x]"));
}

#[test]
fn deletes_only_the_selected_markdown_task_line() {
    let original = "# Tasks\n- [ ] Keep me <!-- focus:id=keep -->\n- [ ] Delete me <!-- focus:id=delete -->\n";
    let mut file = lines(original);
    let task = read(original)
        .into_iter()
        .find(|task| task.task_id.as_deref() == Some("delete"))
        .unwrap();

    repository().delete(&mut file, &task).unwrap();

    let markdown = join_lines(&file);
    assert!(markdown.contains("Keep me"));
    assert!(!markdown.contains("Delete me"));
}

#[test]
fn hidden_id_follows_a_task_when_markdown_lines_move() {
    let original = "# Tasks\n- [ ] Move me\n";
    let mut file = lines(original);
    let task = read(original).remove(0);
    let (_, added) = repository().ensure_id(&mut file, &task).unwrap();
    let id = added.unwrap();
    let identified = read(&join_lines(&file)).remove(0);
    assert_eq!(identified.task_id.as_deref(), Some(id.as_str()));

    let moved = format!("# Tasks\nSome note\n- [ ] Move me <!-- focus:id={id} -->\n");
    let mut file = lines(&moved);
    let index = repository().toggle(&mut file, &identified).unwrap();

    let toggled = read(&join_lines(&file)).remove(0);
    assert!(toggled.checked);
    assert_eq!(index + 1, 3);
    assert_eq!(toggled.line_number, 3);
}

#[test]
fn estimate_updates_preserve_unknown_metadata_and_keep_the_id_last() {
    let original = "- [ ] Task <!-- focus:custom=keep estimate=2 --> <!-- focus:id=task -->\n";
    let mut file = lines(original);
    let task = read(original).remove(0);

    repository().set_estimate(&mut file, &task, Some(4)).unwrap();

    let markdown = join_lines(&file);
    let estimated = read(&markdown).remove(0);
    assert_eq!(estimated.metadata.estimate_pomodoros, Some(4));
    assert!(markdown.contains("custom=keep"));
    assert!(!markdown.contains("estimate=2"));
    assert_eq!(markdown.matches("estimate=4").count(), 1);
    assert!(markdown.trim_end().ends_with("<!-- focus:id=task -->"));

    repository().set_estimate(&mut file, &estimated, None).unwrap();
    let markdown = join_lines(&file);
    let cleared = read(&markdown).remove(0);
    assert_eq!(cleared.metadata.estimate_pomodoros, None);
    assert!(!markdown.contains("estimate="));
}

#[test]
fn blocked_status_can_be_toggled_without_changing_the_checkbox() {
    let original = "- [ ] Task <!-- focus:id=task -->\n";
    let mut file = lines(original);
    let task = read(original).remove(0);

    repository().toggle_blocked(&mut file, &task).unwrap();

    let markdown = join_lines(&file);
    let blocked = read(&markdown).remove(0);
    assert!(blocked.metadata.blocked);
    assert!(!blocked.checked);
    assert!(markdown.contains("status=blocked"));

    repository().toggle_blocked(&mut file, &blocked).unwrap();
    let markdown = join_lines(&file);
    let unblocked = read(&markdown).remove(0);
    assert!(!unblocked.metadata.blocked);
    assert!(!markdown.contains("status="));
    assert!(markdown.contains("- [ ] Task"));
}

#[test]
fn editing_text_preserves_checkbox_format_and_unknown_focus_metadata() {
    let original = "*  [ ]  Old text <!-- focus:estimate=2 custom=keep --> <!-- focus:id=edit -->\n";
    let mut file = lines(original);
    let task = read(original).remove(0);

    repository().edit(&mut file, &task, "New text #updated").unwrap();

    let markdown = join_lines(&file);
    let edited = read(&markdown).remove(0);
    assert_eq!(edited.text, "New text #updated");
    assert_eq!(edited.metadata.tags, ["updated"]);
    assert_eq!(edited.metadata.estimate_pomodoros, Some(2));
    assert_eq!(
        markdown,
        "*  [ ]  New text #updated <!-- focus:estimate=2 custom=keep --> <!-- focus:id=edit -->\n"
    );
}

#[test]
fn inserting_after_a_parent_places_the_new_sibling_after_its_subtree() {
    let original = "- [ ] Parent <!-- focus:id=parent -->\n  - [ ] Child <!-- focus:id=child -->\n- [ ] Sibling <!-- focus:id=sibling -->\n";
    let mut file = lines(original);
    let parent = read(original).remove(0);

    let (index, _id) = repository().insert_after(&mut file, &parent, "Inserted sibling").unwrap();

    let markdown = join_lines(&file);
    let inserted = read(&markdown).into_iter().find(|task| task.text == "Inserted sibling").unwrap();
    assert_eq!(inserted.indent, 0);
    assert_eq!(inserted.line_number, index + 1);
    assert!(
        markdown.find("Child").unwrap() < markdown.find("Inserted sibling").unwrap()
            && markdown.find("Inserted sibling").unwrap() < markdown.find("Sibling").unwrap()
    );
}

#[test]
fn moving_a_task_moves_its_complete_subtree_without_crossing_headings() {
    let original = "# One\n- [ ] Parent <!-- focus:id=parent -->\n  - [ ] Child <!-- focus:id=child -->\n- [ ] Sibling <!-- focus:id=sibling -->\n# Two\n- [ ] Other <!-- focus:id=other -->\n";
    let mut file = lines(original);
    let parent = read(original).remove(0);

    assert!(repository().move_subtree(&mut file, &parent, MoveDirection::Down).unwrap());

    let markdown = join_lines(&file);
    assert!(markdown.find("Sibling").unwrap() < markdown.find("Parent").unwrap());
    assert!(markdown.find("Parent").unwrap() < markdown.find("Child").unwrap());
    assert!(markdown.find("Child").unwrap() < markdown.find("# Two").unwrap());
    let moved = read(&markdown).into_iter().find(|task| task.text == "Parent").unwrap();
    assert!(!repository().move_subtree(&mut file, &moved, MoveDirection::Down).unwrap());
    assert_eq!(join_lines(&file), markdown);
}

#[test]
fn indenting_and_outdenting_moves_the_complete_subtree() {
    let original = "- [ ] First <!-- focus:id=first -->\n- [ ] Parent <!-- focus:id=parent -->\n  - [ ] Child <!-- focus:id=child -->\n";
    let mut file = lines(original);
    let parent = read(original).remove(1);

    assert!(repository().change_indent(&mut file, &parent, IndentDirection::Increase).unwrap());
    let markdown = join_lines(&file);
    assert!(markdown.contains("  - [ ] Parent"));
    assert!(markdown.contains("    - [ ] Child"));

    let indented = read(&markdown).remove(1);
    assert!(repository().change_indent(&mut file, &indented, IndentDirection::Decrease).unwrap());
    assert_eq!(join_lines(&file), original);
}

#[test]
fn stable_ids_are_matched_exactly_when_one_is_a_prefix_of_another() {
    let original = "# Tasks\n- [ ] Short ID <!-- focus:id=task -->\n- [ ] Long ID <!-- focus:id=task-long -->\n";
    let mut file = lines(original);
    let task = read(original).remove(0);

    repository().toggle(&mut file, &task).unwrap();

    let markdown = join_lines(&file);
    assert!(markdown.contains("- [x] Short ID"));
    assert!(markdown.contains("- [ ] Long ID"));
}

#[test]
fn refuses_to_mutate_a_task_that_changed_externally() {
    let stale_task = read("# Tasks\n- [ ] Original text <!-- focus:id=task-1 -->\n").remove(0);
    let mut file = lines("# Tasks\n- [ ] Externally edited <!-- focus:id=task-1 -->\n");

    let result = repository().toggle(&mut file, &stale_task);

    assert!(matches!(result, Err(MarkdownError::Conflict(_))));
    let markdown = join_lines(&file);
    assert!(markdown.contains("- [ ] Externally edited"));
    assert!(!markdown.contains("- [x]"));
}

#[test]
fn concurrent_adds_preserve_every_task() {
    let mut file = lines("# Tasks\n\n");
    let writer_count = 16;
    for index in 0..writer_count {
        repository().add(&mut file, true, &format!("Concurrent task {index}")).unwrap();
    }

    let tasks = read(&join_lines(&file));
    let mut texts = tasks.iter().map(|task| task.text.clone()).collect::<Vec<_>>();
    texts.sort();
    texts.dedup();
    assert_eq!(tasks.len(), writer_count);
    assert_eq!(texts.len(), writer_count);
}

#[test]
fn adds_a_stable_task_and_resolves_relative_task_files_in_the_app_data_directory() {
    let mut file: Vec<String> = Vec::new();

    let id = repository().add(&mut file, false, "Learn Ratatui").unwrap();

    let markdown = join_lines(&file);
    let task = read(&markdown).remove(0);
    assert_eq!(task.text, "Learn Ratatui");
    assert_eq!(task.task_id.as_deref(), Some(id.as_str()));
    let data_dir = default_data_dir(None, Some("/home/ada".to_string()));
    assert_eq!(
        resolve_task_file("TODO.md", Some("/home/ada".to_string()), &data_dir),
        format!("{data_dir}/TODO.md")
    );
    assert!(markdown.contains("- [ ] Learn Ratatui <!-- focus:id="));
}

#[test]
fn a_new_stable_id_is_thirty_two_lowercase_hex_digits() {
    let mut file = lines("# Tasks\n");
    let first = repository().add(&mut file, true, "One").unwrap();
    let second = repository().add(&mut file, true, "Two").unwrap();
    assert_eq!(first.len(), 32);
    assert!(first.chars().all(|c| c.is_ascii_hexdigit() && !c.is_ascii_uppercase()));
    assert_ne!(first, second);
}

#[test]
fn empty_task_text_is_refused_without_touching_the_file() {
    let mut file = lines("# Tasks\n");
    assert_eq!(repository().add(&mut file, true, "  \n "), Err(MarkdownError::EmptyText));
    assert_eq!(join_lines(&file), "# Tasks\n");
}

#[test]
fn adding_to_an_unfinished_last_line_keeps_it() {
    let mut file = lines("# Tasks\n- [ ] Old");
    let id = repository().add(&mut file, true, "New\ntext").unwrap();
    assert_eq!(join_lines(&file), format!("# Tasks\n- [ ] Old\n- [ ] New text <!-- focus:id={id} -->\n"));
}

#[test]
fn an_upper_case_mark_reopens_and_completes_as_lower_case() {
    let original = "- [X] Done <!-- focus:id=a -->\n";
    let mut file = lines(original);
    let task = read(original).remove(0);
    repository().toggle(&mut file, &task).unwrap();
    let reopened = read(&join_lines(&file)).remove(0);
    assert!(!reopened.checked);
    repository().toggle(&mut file, &reopened).unwrap();
    assert_eq!(join_lines(&file), "- [x] Done <!-- focus:id=a -->\n");
}

#[test]
fn moving_up_needs_a_previous_sibling_and_a_stable_id() {
    let original = "- [ ] A <!-- focus:id=a -->\n- [ ] B <!-- focus:id=b -->\n- [ ] C\n";
    let mut file = lines(original);
    let tasks = read(original);
    assert!(!repository().move_subtree(&mut file, &tasks[0], MoveDirection::Up).unwrap());
    assert!(repository().move_subtree(&mut file, &tasks[1], MoveDirection::Up).unwrap());
    assert_eq!(join_lines(&file), "- [ ] B <!-- focus:id=b -->\n- [ ] A <!-- focus:id=a -->\n- [ ] C\n");
    assert_eq!(
        repository().move_subtree(&mut file, &tasks[2], MoveDirection::Up),
        Err(MarkdownError::MissingStableId)
    );
}

#[test]
fn zero_estimate_is_refused() {
    let original = "- [ ] Task <!-- focus:id=t -->\n";
    let mut file = lines(original);
    let task = read(original).remove(0);
    assert_eq!(repository().set_estimate(&mut file, &task, Some(0)), Err(MarkdownError::ZeroEstimate));
    assert_eq!(join_lines(&file), original);
}

#[test]
fn an_estimate_written_reads_back_and_keeps_text_id_and_other_keys() {
    let original =
        "- [x] Plan trip #travel <!-- focus:id=trip priority=low --> <!-- focus:custom=keep estimate=9 -->\n";
    let mut file = lines(original);
    let task = read(original).remove(0);

    repository().set_estimate(&mut file, &task, Some(12)).unwrap();
    let written = read(&join_lines(&file)).remove(0);
    assert_eq!(written.metadata.estimate_pomodoros, Some(12));
    assert_eq!(written.text, "Plan trip #travel");
    assert_eq!(written.task_id.as_deref(), Some("trip"));
    assert!(written.checked);
    assert_eq!(written.metadata.priority, Some(TaskPriority::Low));
    assert_eq!(written.metadata.tags, ["travel"]);

    repository().set_estimate(&mut file, &written, None).unwrap();
    let cleared = read(&join_lines(&file)).remove(0);
    assert_eq!(cleared.metadata.estimate_pomodoros, None);
    assert_eq!(cleared.text, "Plan trip #travel");
    assert_eq!(cleared.task_id.as_deref(), Some("trip"));
    assert_eq!(cleared.metadata.priority, Some(TaskPriority::Low));
    assert!(join_lines(&file).contains("custom=keep"));
}

#[test]
fn toggling_blocked_twice_reads_back_each_way() {
    let original = "- [ ] Wait for review <!-- focus:status=BLOCKED --> <!-- focus:id=review -->\n";
    let mut file = lines(original);
    let task = read(original).remove(0);
    assert!(task.metadata.blocked);

    repository().toggle_blocked(&mut file, &task).unwrap();
    let unblocked = read(&join_lines(&file)).remove(0);
    assert!(!unblocked.metadata.blocked);
    assert_eq!(join_lines(&file), "- [ ] Wait for review <!-- focus:id=review -->\n");

    repository().toggle_blocked(&mut file, &unblocked).unwrap();
    let blocked = read(&join_lines(&file)).remove(0);
    assert!(blocked.metadata.blocked);
    assert_eq!(
        join_lines(&file),
        "- [ ] Wait for review <!-- focus:status=blocked --> <!-- focus:id=review -->\n"
    );
}

#[test]
fn a_word_that_hides_a_token_keeps_its_own_estimate() {
    let original = "- [ ] Odd <!-- focus:id=odd (estimate=3 -->\n";
    let mut file = lines(original);
    let task = read(original).remove(0);
    assert_eq!(task.metadata.estimate_pomodoros, Some(3));

    repository().set_estimate(&mut file, &task, Some(4)).unwrap();
    assert_eq!(
        join_lines(&file),
        "- [ ] Odd <!-- focus:estimate=4 --> <!-- focus:id=odd (estimate=3 -->\n"
    );
    assert_eq!(read(&join_lines(&file)).remove(0).metadata.estimate_pomodoros, Some(3));
}
