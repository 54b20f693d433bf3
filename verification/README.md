# gfile_rust

A command-line client for GigaFile.nu downloads, with its decisions verified
by Verus.

- `src/` is the verified library: download-page URLs (`urlinfo`), reading the
  download page (`parser::download`, with the page's HTML parsed by `scraper`)
  and its displayed sizes (`parser::size`), local file names (`naming`) and
  paths (`paths`), recognising HTML where a file was expected (`sniff`), the
  retry policy (`http`), the per-response transfer state machine and the
  `.part` files (`download`), the command line (`cli`) and the errors with
  their exit codes (`error`).
- `app/` is the program around it: clap, tracing, reqwest and tokio, and the
  file-system work that the library's decisions call for.
- `tests/` exercises the library on concrete values.
