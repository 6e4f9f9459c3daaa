# passterm

A terminal password manager: an encrypted vault of named environments, each
holding environment variables, a command line to manage it and a terminal
front end.

- `src/` is the verified library:
  - `assoc.rs`: maps keyed by strings that keep insertion order (the model of
    the vault's entries and of each entry's variables), with their laws;
  - `text.rs`: trimming and building strings;
  - `vault/`: the vault (`mod.rs`), its encryption (`crypto.rs`) and its file
    format and `.env` import (`storage.rs`);
  - `tui.rs`: the front end's state and the state machine of key presses;
  - `screen.rs`: what the front end shows for a state;
  - `cli.rs`: the decisions of the command line.
- `app/` is the program around it: argument parsing, terminal drawing, files,
  JSON and the clipboard.
- `tests/` exercise the library.
