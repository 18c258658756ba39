# Focus Pane

A terminal Pomodoro timer that keeps its tasks in ordinary Markdown files and
its timer state and focus history in SQLite.

## Layout

- `src/` — the verified library, checked by Verus:
  - the Markdown grammar of task lines, headings and trailing
    `<!-- focus:... -->` metadata (`grammar`, `body`, `repository`);
  - the edits of task files: toggling, adding, editing, deleting, moving and
    indenting subtrees, metadata updates, conflict detection by stable id
    (`edits`, `mutations`, `locate`, `outline`, `revision`);
  - the Pomodoro state decisions and presets (`timer`, `config`, `store`);
  - the task list, search, command registry, palette, footer, text input and
    external-change handling of the terminal front end (`rows`, `search`,
    `commands`, `interface`, `input`, `sync`);
  - workspaces and the terminal sidebar text (`workspace`, `herdr`);
  - laws that span several operations (`markdown_laws`, `metadata_laws`,
    `list_laws`, and the `law_` proofs beside the operations they speak of).
- `tests/` — tests of the library on concrete files and states.
- `app/` — the program around the library: command line, configuration files,
  file locking and atomic writes, SQLite, the detached timer worker, and the
  ratatui/crossterm user interface.
