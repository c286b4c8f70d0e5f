# json_path

Finds the key path of the JSON value under a cursor (for example `a[1].k`) and writes it
as the text to copy, as the Zed extension "JSONPath" and its language server do.

- `src/` is the library, written in Verus and verified: the cursor position, the JSON
  parser that keeps the deepest path whose span holds the cursor, the formatting of the
  path, the settings, the language server's decisions (open documents, replies, header
  lines, clipboard programs), the extension's choice of binary (the one on the path, or
  the platform's asset of the latest release), the JSON of each message (what the server
  reads of a message body and the JSON of its answers, `src/message.rs`) and the laws that
  relate them (`src/laws.rs`, `src/spans.rs`).
- The calls into `serde_json` and `regex` stand behind the trusted items in
  `src/json_text.rs`, `src/message.rs` and `src/key_pattern.rs`; `str::trim` and `String::push` behind the
  two small wrappers in `src/header.rs` and `src/text.rs`.
- `app/` holds what the library does not: the language server's main loop and its
  standard input and output (reading the header lines and the body, writing replies), the clipboard processes, the environment, and the Zed
  extension itself with its host calls (finding, fetching and downloading the binary).
- `tests/` runs the library on concrete inputs.
