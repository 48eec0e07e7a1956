# upload

A command-line tool that uploads a directory tree of homework to Google
Drive folders through the `gdrive` program, updating files that are already
there and skipping what `.driveignore` names.

- `src/` is the verified library: text handling over character sequences
  (`text`), reading `gdrive list` output (`query`), the trash (`trash`),
  files and folders of an upload (`files`, `folders`), sharing (`share`),
  command-line values (`args`), adding a course (`append`) and the walk
  through the directory tree, nested directories included (`walk`).
- `app/main.rs` is the program: it reads the command line and the
  environment, walks the directory, runs the `gdrive` commands that the
  library builds and prints progress.
- `tests/` runs the library on concrete values, several of them against
  the std functions whose behaviour the library's text handling states.
