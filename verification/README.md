# nav

A terminal file navigator whose logic is verified with Verus.

Files are browsed with a preview beside the listing, marked across directories, and
staged for copying, moving, renaming, creating and trashing. Nothing touches the disk
until the plan has been looked at and run.

## Layout

- `src/` is the verified library.
  - `path`, `text`: paths and text, with the rules the filesystem and the standard
    library have for them.
  - `plan`, `marks`, `memory`: what is staged, what is marked, and where the cursor was.
  - `io`: listings, previews, the clipboard, neovim, zoxide, images, and file operations
    as jobs that ask the filesystem one thing at a time.
  - `navigator`: the state machine. A key or an answer goes in, the next state and the
    next question come out. `model` says what each transition is, `picture` what each
    state looks like, and the `*_laws` modules what holds of all of them.
  - `log_store`, `logging`, `error`, `notice`, `screen`, `globals`, `session`,
    `preview`: the log, errors, what is said, what is drawn, and how a session ends.
- `app/` is the program around it: the terminal, the filesystem, the processes. It
  answers what the library asks.
- `tests/` drives the library against a filesystem in memory and draws its frames into
  ratatui buffers.

Functions of other crates and of the standard library that Verus has no contract for
stand behind wrappers marked `external_body`; what each one claims is written above it.
