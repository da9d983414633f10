# Henka

Semantics-aware code refactorings for many projects, spoken over MCP. The
refactorings are computed by the language's own server (Eclipse JDT for Java,
rust-analyzer for Rust, typescript-language-server for TypeScript and
JavaScript); Henka keeps the projects, turns calls into requests, and previews
or applies the edits that come back.

What Henka decides is a library, `src/`, whose behaviour is stated in contracts
and proved with Verus. What it does to the world around it is a program, `app/`,
which asks the library for each next step and carries it out.

## Layout

| Module | What it holds |
|--------|---------------|
| `text`, `path`, `json`, `sets` | The plain values that everything else is stated over. |
| `language`, `project`, `registry` | Languages of a source tree, and the registered projects. |
| `vcs`, `locate`, `provider` | Revisions, where tools are looked for, and the language providers. |
| `operation`, `backend` | Operations, and how a run of one talks to a language server. |
| `edit` | Positions, edits, their rewriting of files, previews and plans. |
| `lsp` | Framing, routing, document sessions with overlays, conversion of answers. |
| `java`, `rust_lang`, `ts` | The backends: their operations, their servers. |
| `server` | The tools, path translation, workspaces, and the dispatch of a call. |
| `tasks` | Build tasks. |

`tests/` runs the library on concrete values. `app/` holds the command line, the
transports, the file system, version control commands, and the processes of the
language servers. The program is the Henka server; called `refactor-server` it
serves the project tools alone, and called `xtask` it runs the build tasks.

## What is proved

Each public function says in its contract what it returns. Beyond that, public
proof functions state what holds of the library as a whole: among others, that a
call does what its preview showed, that a preview or a query writes nothing,
that a call on a file goes to the language of the file, that every run is
followed by a restoration of the shared index, that nothing outside the
workspace is written, and that a path which the path map rewrote is rewritten
back, where the places it maps to lie apart.

The functions marked `external_body` and the `assume_specification` items are
believed without proof. They call the standard library, `similar` and
`serde_json`, and their comments say what is claimed of each.
