# go-again

Remembers failing Go tests so that they can be run again quickly.

```sh
go test ./... | go-again remember   # remember the failures
go-again run [--update]             # run them again
go-again list | select | watch | clear
```

Plain, `-v` and `-json` output are all understood:

```sh
go test ./... -json | go-again remember
```

`run --update` keeps every remembered test that did not pass, including one
whose `go` process could not be started.

Failures are stored per project and branch in `~/.go-again/state.json`.

## Layout

- `src/` is the verified library (Verus):
  - `parser.rs` reads `go test` output (plain or `-json` events) into failed tests;
  - `json.rs` reads the one-line JSON objects that `go test -json` prints;
  - `storage.rs` holds the remembered failures per project key;
  - `runner.rs` builds the `go test` invocation of one test and tallies results;
  - `project.rs` forms the project key from the repository root and branch;
  - `interactive.rs` reads back picked tests and decides the watch loop's steps;
  - `text.rs` holds the character-level text handling that the others share.
- `app/` is the command line around it: argument parsing, stdin, the state
  file, `git` and `go` processes, the fuzzy picker and the file watcher.
- `tests/` runs the library on concrete inputs.
