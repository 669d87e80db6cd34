# roc_desk_http

The logic of an HTTP workspace (in the manner of Postman or Apifox), written in
Verus with its behaviour stated in `requires` / `ensures` contracts and proved.

- `src/http_desk/model.rs`: requests, environments, variables, results, and
  their mathematical views.
- `src/http_desk/vars.rs`: layered variable scopes (environment, collection,
  global) and `{{ }}` interpolation, with the built-in dynamic values.
- `src/http_desk/import/`: the curl command importer, the Postman Collection
  v2.x importer and the OpenAPI 3.x / Swagger importer, over a JSON tree that
  `serde_json` and `serde_yaml` read.
- `src/http_desk/client.rs`: how a request is resolved and checked (method,
  URL, headers) before it is sent, and how a response body is prepared for
  display.
- `src/http_desk_commands.rs`: masking of secret values before a request is
  written to the history, the history entry of a sent request, the variables
  of the chosen environment, and tab reuse.
- `src/text.rs`: the string operations the rest is built from, each with a
  specification.
- `app/`: the unverified edge: sending over the network with `reqwest` and
  keeping workspace tabs in SQLite with `rusqlite`.
