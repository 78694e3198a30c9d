# t32_language_server

A language server library for the Lauterbach TRACE32® script language
(PRACTICE), written in Verus: the bookkeeping of the server is executable
Rust whose behaviour is stated in `requires` / `ensures` contracts and proved.

## Layout

- `src/` — the verified library.
  - `text`, `linemap`, `textdoc`: characters, UTF-8 and UTF-16 offsets, the
    line map of a document, positions and ranges, incremental text edits.
  - `docstore`: the store of open and known documents with their syntax
    trees (tree-sitter with the TRACE32 grammar).
  - `docsync`: opening, changing and closing documents.
  - `files`: paths, the index by which a script is found from its file name,
    and moves of scripts and directories.
  - `discovery`: discovering the scripts of the workspace step by step.
  - `progress`: work-done progress reports to the client.
  - `references`, `definitions`, `lookups`: the multi-step lookups of macro
    definitions and references across scripts.
  - `findrefs`, `xrefs`: answering reference and definition requests from
    the result of the lookup in one script and the cross references of all
    scripts.
  - `semantic`, `folds`: semantic tokens and folding ranges.
  - `tasks`, `startup`, `lsp`, `protocol`, `request`, `response`, `config`,
    `transport`: tasks, messages and the protocol types.
- `tests/` — tests of the library, run against the compiled crate.
- `app/` — the program around the library: the stdio transport child
  process, the walk of the workspace on disk, and the worker threads that run
  the work the library hands out.

## What is not here

- The analysis of one script: finding the node under the cursor in the
  syntax tree, the definitions and references of macros, subroutines and
  labels inside a script, the folding ranges of a script, and the semantic
  tokens of a script. The library takes their results as values
  (`FindReferencesResult`, `GotoDefinitionResult`, folding ranges, semantic
  tokens) and does everything that follows from them, but does not compute
  them.
- The cross references of the parsed scripts are held in `ScriptRefs`; how
  they are gathered from the scripts is not here either, nor the resolution
  of a call target to the scripts it names.
- `app/` is therefore no complete language server: it runs the discovery of
  a workspace from the command line, and its worker threads hand the
  in-script lookups back as not run. Its `StdioChannel` frames the messages
  from the client with the library's decoder.
