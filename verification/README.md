# jsonstreams_gen

Generates JSON Streams applications, and OpenAPI specifications for them,
from a Qlerify event model.

The library in `src/` is verified with Verus:

- `model` extracts the application (aggregates, commands, entities, value
  objects) from the event model, and reports fields of commands that their
  entities lack.
- `streams` plans the files of a JSON Streams application: a reducer and a
  validator per command, a part per aggregate, and the application.
- `openapi` builds the HTTP and the server-sent-events specifications.
- `common` reads JSON and YAML documents and templates, and renders files.
- `json`, `collections` and `text` hold the trusted interface to the
  `immutable-json` and `imbl` crates and to the standard library, with the
  mathematical models that the contracts are written in.

The command line tool in `app/` parses the arguments, reads the input files,
calls the library, and writes the files that it plans.
