# korea-cli

Search, inspect and call the open APIs of Korea's public data portal (data.go.kr) from the
command line or as an MCP server. The library in `src/` is verified with Verus: each public
function states what it returns in its contract, and the laws of the library stand as
proof functions beside the code they speak of.

## Layout

- `src/` — the verified library
  - `types.rs` — catalog, bundle and spec types, and the classification of a spec's status
  - `catalog.rs` — the meta API's records, paging and merging of services, catalog search
  - `swagger.rs` — reading Swagger 2.0 documents into specs
  - `html.rs`, `html_parser.rs` — parsed portal pages and what is read from them
  - `caller.rs` — planning a call, building its response, reading XML bodies
  - `gateway.rs` — result codes, default parameters for a first call
  - `collect.rs`, `crawl.rs`, `survey.rs`, `scan.rs`, `signals.rs`, `freq.rs` — the
    decisions of the collection and analysis tools
  - `bundle.rs` — bundle compression and checksum, the choice of bundle, update checks
  - `mcp.rs` — JSON-RPC dispatch and the answers of the MCP tools
  - `cli.rs`, `config.rs` — command answers, tool options and settings
  - `json.rs`, `json_text.rs`, `text.rs`, `captures.rs` — JSON values and their compact
    text, text helpers, and the regular-expression captures the pages are read with
- `app/` — the program around the library: argument handling, files, HTTP and the stdio
  loop of the MCP server
- `tests/` — tests of the library

Outside crates that compute (`scraper`, `regex`, `quick-xml`, `zstd`, `chrono`) are called
from the library through a few trusted functions whose contracts are documented where they
stand.
