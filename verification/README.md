# bark

Smart file header management and directory tree generator: `bark` stamps a
one-line path header (`// File: src/main.rs`) onto every source file of a
project, keeps it current, strips it again on request, backs files up before
changing them, and writes a directory tree of the project.

## Layout

- `src/` is the library, verified with Verus. Every decision the tool makes
  is made here, with its contract:
  - `header`: comment styles, recognising, adding, replacing and removing the
    header line (`analyze`, `apply_tag`, `strip`); `header_laws` proves what
    tagging twice, re-tagging, tagging then checking and stripping after
    tagging give.
  - `template`: the values a template refers to, and rendering.
  - `walker`: which files are tagged and in which style (extensions, file
    names, skip lists, exclude globs, size and binary checks).
  - `processor`: the plan for one file (template choice, header, result,
    what to write), counters and summaries.
  - `tree`: ordering entries and drawing the tree file.
  - `backup`: backup names, reading them back, listing, `--latest` and
    `clean` choices.
  - `watcher`: which events and changed files lead to tagging, without
    tagging bark's own writes again.
  - `detect`: project detection and the generated `.bark.toml`.
  - `config`, `cli`: the configuration and command line as plain values;
    where the config file is searched.
  - `paths`, `text`: path and string operations with their models.
- `app/` is the `bark` program: argument parsing, reading and writing files,
  walking directories, the file-system watcher and terminal output.
- `tests/` exercises the library on concrete inputs.
