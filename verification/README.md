# plane

A small command line client for a self-hosted Plane CE instance, written in
Verus: what it decides is proved, what it touches is kept at the edge.

## Layout

- `src/` decides. A command of `src/cmd/` is a function from the answers heard
  so far to its next step: a request to send, a file to read or write, a program
  to run, or the end with what to print. Its contract gives that step for every
  list of answers.
- `app/` performs. It parses the arguments, carries out one step after the other,
  and hands each answer back until a command ends. The one rule it holds is how
  a byte count is rounded for a reader, which takes floating point. It also holds
  a copy of the settings with serde's derive, for what serde says of a config file
  that the library refuses.
- `tests/` runs the library with the real crates behind it.

`src/script.rs` is the place to start: it holds what a command can ask and what
it can hear. `src/client.rs` holds what the API is asked, `src/names.rs` how names
are matched, `src/config.rs` and `src/store.rs` the settings and their file.

## What is proved

Besides the contract of each function, the library proves among others that

- looking things up sends only GET requests, and every name resolves before
  anything is written;
- a list ends after at most 500 pages, merges each of them, and stops when a
  cursor comes back a second time;
- a variable beats the file and the file beats the default, for every setting;
- settings that were saved are the settings that are loaded;
- no row of `plane config show` carries the token, nor does it print one;
- raw HTML in a description is handed to the renderer as text;
- a failed attachment names the files that are already there.

## What is trusted

JSON and TOML are read and printed by `serde_json` and `toml`, Markdown by
`pulldown-cmark`, and letters change case as the standard library does it. Each
call stands in a small function of its own, with a comment that says what is
believed of it: see `src/json.rs`, `src/store.rs`, `src/markdown.rs` and
`src/text.rs`.

## Settings

| Key | Variable that overrides it | Default |
|---|---|---|
| `workspace` | `PLANE_WORKSPACE` | none; required |
| `api_base` | `PLANE_API_BASE` | `http://localhost:8090/api/v1` |
| `web_base` | `PLANE_WEB_BASE` | none; issue URLs are left out |
| `pass_vault` | `PLANE_PASS_VAULT` | `Personal` |
| `pass_item` | `PLANE_PASS_ITEM` | `plane` |
| `pass_field` | `PLANE_PASS_FIELD` | `PAT` |
| `api_key` | `PLANE_API_KEY` | none; read through `pass-cli` |
