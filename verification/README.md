# hitpoint

A terminal API tester for FastAPI backends. Register a project once, browse its
endpoints by tag, fill a form generated from the schema, and hit it. The same
engine works headless, as subcommands with JSON output, and as an MCP server.

The library under `src/` is written in Verus. What its functions return and
change is stated in their contracts and proved; what the library promises as a
whole is stated in the public proof functions whose names begin with `law_`.
The program under `app/` is ordinary Rust around it: the terminal, files, the
network, the OS keychain and the clock.

| Module | What it holds |
|---|---|
| `spec` | reading OpenAPI 3.0/3.1, resolving `$ref`, normalizing schemas, the order of spec sources |
| `model` | endpoints, schemas and request templates shared by every frontend |
| `tui` | the form engine, the screens and the screen stack |
| `http` | addresses, payloads and the one retry after a 401 |
| `auth` | which token to use, when to log in or refresh, the OAuth address and callback |
| `cli`, `mcp` | what commands and tools answer |
| `config`, `error` | `projects.toml`, error kinds and exit codes |
| `json`, `names`, `pairs`, `text` | values that the rest is built on |

What the library takes from other crates without proof stands in small
functions marked `external_body`, each with a comment that says what is claimed:
reading and quoting JSON (`serde_json`), reading URLs (`url`), percent-encoding
(`percent-encoding`), HTTP methods (`reqwest`), the address of an OAuth login
(`oauth2`), and a few functions of std.
