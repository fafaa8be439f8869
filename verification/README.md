# oadig

Extracts structured slices from OpenAPI documents (Swagger 2.0, OpenAPI 3.0 and 3.1):
spec version, info, counts, operations with a filter language, single operations,
request bodies and responses with `$ref`s expanded, status codes, tags, components,
schemas, a string search with JSON Pointer locations, validation and version conversion.

## Layout

- `src/` is the library, written in Verus. Every command is a function from a JSON
  value (`json::Json`, viewed as `json::JsonV`) to a JSON value or an error, with a
  contract that states the result exactly over spec functions.
  - `json`, `pointer`, `text`, `table`, `encode`, `output`: the value model, JSON
    Pointer lookup, string helpers, key-sorted count tables, compact JSON text and the
    line layout.
  - `resolver`: `$ref` expansion with circular, unresolved and depth markers.
  - `commands/*`: one module per subcommand, plus `filter` (the `--filter` language),
    `convert` (Swagger 2.0 → OpenAPI 3.0 → 3.1) and `validate`.
  - `cli`, `warnings`, `loader`, `error`, `matcher`: the command model, warnings for
    flags a command ignores, input format detection, errors, and regular expressions.
- Properties that relate several calls are proof functions named `law_*`.
- `app/` is the command-line program: argument parsing, reading files and stdin,
  parsing JSON/YAML, and printing.
- `tests/` exercises the library on concrete documents.
