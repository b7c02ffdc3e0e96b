# codeskel

A project dependency and comment-coverage scanner. It walks a source tree
(Java, Python, TypeScript, JavaScript, Go, Rust, C#, C++, Ruby), parses each
file with tree-sitter, records its declarations and how many carry a
docstring, resolves its internal imports, and writes a cache with the files
in dependency order (dependencies first). Commands then read the cache:
`get` (one entry, its dependencies, its transitive chain, the symbols it
references), `rescan` (after a file was edited), `next` (a loop that hands
out one file at a time, with the signatures of what it depends on), and
`pom` (Maven coordinates and internal SDK dependencies).

The library under `src/` is written in Verus: the parsers, the import
resolver, the dependency graph and its ordering, the cache assembly and
statistics, the `next` loop's decisions, the POM reading and the JSON
envelopes are verified against their contracts. `src/laws.rs` states
properties that span several operations.

`app/` is the command-line program around it: argument parsing, file and
directory access, the lock on the cache directory, JSON (de)serialisation,
timestamps and the parallel parse of a scan.

Every command prints one line of JSON on stdout: `{"ok":true,...}` on
success, `{"error":{...},"ok":false}` (exit status 1) on failure; a rescan
that partly failed exits with status 2.
