# spall_cli

The verified core of `spall`, a command-line client that drives HTTP APIs
described by OpenAPI documents: request shaping, credential resolution,
hypermedia links and paging, request history, the MCP tool server's
decisions, Arazzo workflow stepping and the interactive shell.

## Layout

- `src/` — the library, written in Verus. Every function carries a contract
  stated over mathematical models (`Seq`, `Map`, views of the data types)
  and is proved against it. Calls into other crates (`base64`, `sha2`,
  `urlencoding`, `jmespath`, `serde_json`, `indexmap`, `reqwest`, `tabled`, `csv`, `syntect`,
  `chrono`, `rand`, `shlex`) go through small trusted wrappers whose doc comments say what is
  assumed of them.
  - `text`, `order`, `strmap`, `json` — strings, orderings, sorted maps and
    the JSON model the rest is stated over.
  - `execute`, `headers`, `http`, `paginate`, `links`, `fetch`, `output`,
    `preview`, `validate` — building, sending, paging and showing requests.
  - `auth` — the credential chain, OAuth2 PKCE and tokens.
  - `history` — what is stored of a request and how it is shown.
  - `chain`, `filter`, `repl` — chaining one response into the next command.
  - `command`, `completions`, `apis` — the command tree and management commands.
  - `mcp::*` — tool registry, arguments, schemas, JSON-RPC and HTTP transport rules.
  - `arazzo::*` — workflow validation, step resolution and action dispatch.
  - Public `law_*` proof functions state properties that relate several
    functions or hold over every run.
- `tests/` — executable tests of the library.
- `app/` — the program around the library: argument parsing, files, the
  network, the SQLite history and the terminal.
