# copilot_byok

A verified core for connecting bring-your-own-key model providers to GitHub
Copilot in VS Code and to the Copilot CLI:

- a provider catalog whose providers become managed Custom Endpoint groups in
  each selected VS Code profile's `chatLanguageModels.json`, next to the
  user's own groups;
- a loopback proxy variant that writes one fixed VS Code model and forwards
  its requests to the currently selected upstream provider;
- the Copilot CLI provider environment, applied and restored with conflict
  detection;
- VS Code MCP server entries beside each selected profile.

## Layout

- `src/` — the library, verified with Verus. Every decision (what a file
  becomes, which targets are selected, what a request is answered, what the
  environment is set to) is a function with a contract; the properties that
  span several functions are proof functions named `lemma_*`.
  - `model`, `store`, `import`: the catalog's provider, store and import
    records and their normalization and validation.
  - `vscode`, `targets`, `sync`, `catalog`: profile discovery, target
    selection and path resolution, file merging, and the settings page's
    operations.
  - `proxy`: the proxy variant's store, projection, target bookkeeping and
    request decisions.
  - `cli`: the Copilot CLI environment plan.
  - `rollback`: the rollback-protected writing of that environment, as a
    step function the caller drives one write at a time.
  - `mcp`: `mcp.json` edits.
  - `json`, `kv`, `text`, `order`: the JSON model, key-ordered maps, text
    and sorting helpers.
  - `bridge`: the contracts of the few outside and standard-library calls
    the library makes (URL parsing, JSON5, SHA-256, UUIDs, header checks,
    platform paths).
- `tests/` — the library's tests.
- `app/` — the I/O around the library: files, directory listings, the
  persisted stores (serde records), the user environment driver and the
  HTTP server of the proxy.
