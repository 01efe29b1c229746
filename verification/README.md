# itcoolmcplang1c

An MCP server over stdio that answers questions about the 1C:Enterprise
built-in language from a knowledge base: a ready JSON index, or one built on
the spot from the help books of the installed platform.

- `src/` — the library, verified with Verus: launch-parameter resolution, the
  V8 container format of the help books, the taking apart of help pages into
  objects, methods and language sections, the knowledge base and its search,
  the tool answers, prompts, the cache's validity, the build's progress.
  Calls into `regex`, `zip`, `indexmap`, `petgraph`, `flate2`,
  `html-escape` and `tera` stand behind small trusted wrappers. Where a
  call's result depends on its arguments alone, the wrapper's contract names
  it; Tera's rendering can read the environment, so its wrapper promises
  nothing, and what the library does with Tera's answer is verified apart.
- `app/` — the program around it: arguments and environment, files, logging,
  JSON on the wire, the stdio loop, and the TF-IDF ranking (floating point).
- `tests/` — tests of the library.
