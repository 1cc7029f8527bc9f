# clankerdiff-core

The verified core of an agent-driven code review tool for Git working-tree
changes: the diff model, the review and its comments, the presentation of a
diff as rows, the review session, and the pure parts of the local web host.
Verus checks every function in `src/`; the public ones carry contracts
that state what they return or change, and the laws of the library stand
as proof functions beside them.

## Layout

- `src/` — the library, verified with Verus.
  - `text`, `repo_path`, `model`, `content`, `fingerprint` — characters, paths,
    patch lines and hunks, source documents, and BLAKE3 content identities.
  - `line_diff`, `file_diff`, `git_diff`, `parser`, `patch` — hunks derived from
    two texts, Git diff and status output turned into documents, and Git
    patches written from texts.
  - `anchor`, `review`, `presentation`, `snapshot`, `session`, `commands` —
    comment anchors and their reconciliation, unified and split rows, and the
    interactive review state and its commands.
  - `markdown_review` — comments on a Markdown document, their ordering and
    the feedback formatted from them.
  - `web`, `request`, `header`, `protocol`, `tui` — routes and responses of the
    web host, an incremental HTTP request reader, connection headers, the review
    envelope and session framing, and the terminal launcher.
  - `theme`, `testing` — colors and syntax themes, and document builders.
- `tests/` — tests run against the compiled library with the real outside
  crates linked.
- `app/` — the executable: command-line arguments, Git processes, the web
  server loop and JSON output.

Calls into outside crates (`blake3`, `similar`, `diffy`, `rand`, `http`,
`shlex`) go through small trusted wrappers whose contracts state what those
crates document; everything around them is proved.
