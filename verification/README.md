# zed_ctrmml

Completion logic of the ctrmml (MML) language server and the install logic of
its Zed extension, written in Verus.

- `src/` is the verified library:
  - `text`: strings as characters, prefixes at byte columns (UTF-8), lines,
    white space.
  - `context`: what the text before the cursor says (comment, open string,
    `pcm` word, `@N ` definition, complete PCM definition, meta keyword).
  - `items`: completion items and the fixed lists with their documentation.
  - `paths`: document folders, sample search folders and sample file items
    (calls into `url`, `pathdiff` and `std::path`).
  - `completion`: the answer to a completion request.
  - `documents`: the open documents and the workspace folders.
  - `update_check`: the record of the last update check.
  - `install`: the steps that find or install the server binary.
- `app/` holds the language server (`tokio`, `tower-lsp`, `walkdir`) and the
  Zed extension (`zed_extension_api`): protocol, files, clocks and host calls.
- `tests/` runs the library on concrete inputs.
