# rust-hf-downloader

A downloader for model repositories on the Hugging Face Hub: a terminal
interface to search models, browse their quantizations or file trees and
queue downloads, and a one-shot `download` command for scripts. Downloads
go in ranged chunks, are recorded in a registry so that unfinished ones can
be resumed, and are checked against their SHA256.

## Layout

- `src/` is the library, verified with Verus. It holds the logic: the
  classification of GGUF files into quantization groups, the file tree,
  path sanitizing, the download plan and the decisions after each attempt,
  the SHA256 of downloaded files (through `sha2` and `hex`), the walk of
  the repository's file listing, the registry bookkeeping, the search request and the client-side
  filtering and ordering of its results, the command-line selection and
  reporting, the state machine of the terminal interface (keys, mouse,
  popups, filters, options) and every text that the interface shows.
  `src/laws.rs` states properties that span several functions.
- `app/` is the program around it: argument parsing, configuration and
  registry files, HTTP requests, file transfers and file reads, and the
  terminal drawing and event loop. It hands the library plain values and
  performs the work the library asks for.
- `tests/` exercises the library on concrete values.

Without arguments the program starts the terminal interface;
`rust-hf-downloader download <author/model> ...` downloads without it.
