# gluon-language-server

A language server and a debugger for [gluon](https://github.com/gluon-lang/gluon), with a verified
core.

* `src/` is the core, a library. Everything in it is proved with
  [Verus](https://github.com/verus-lang/verus) to do what its contracts say: the framing and queueing
  of messages (`rpc`), edits that arrive in any order (`text_edit`), the translation of places
  (`position`, `source`, `location_translation`) and of names and paths (`name`, `path`), what an
  editor is told of a program (`diagnostics`, `command`), and the state and the sessions of the
  debugger (`debugger`).
* `app/` is the programs around it: they talk to editors, to the file system and to the gluon
  compiler, and carry out what the library decides. Started as `gluon_debugger` it is the debugger,
  otherwise the language server.
* `tests/` runs the library, together with the compiler where that matters.

What the library takes on trust of other crates stands in functions marked
`#[verifier::external_body]`, each with a comment that says what it relies on. What holds of the
library as a whole is stated by the proof functions whose names start with `law_`.
