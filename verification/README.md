# mcp_authorization

Per-request, schema-level authorization for MCP tool servers, verified with Verus.

A caller's capabilities form an `AuthContext`. A `Proof<C>` can only be
obtained by checking capability `C` against it. Tools can be gated by a
capability, and so can the fields of their input schemas and the variants of
their output schemas: each caller is shown, and may call, only what its
capabilities admit.

## Layout

- `src/` — the verified library.
  - `capability.rs` — `Capability`, `Proof<C>`, `AuthContext`.
  - `json.rs` — the library's JSON values and their mathematical model.
  - `schema.rs` — shaping of input and output schemas (`SchemaShaper`), with
    the laws of shaping.
  - `registry.rs` — tools, tool definitions and the `AuthToolRegistry`, with
    the laws of visibility and registration.
  - `provider.rs` — `DenyByDefault`.
  - `server.rs` — the `AuthorizedServer` type-state builder and its decisions
    on tool lists and tool calls.
  - `derive.rs` — the requirement-table logic of `#[derive(AuthSchema)]`.
  - `metadata.rs` — the `AuthSchemaMetadata` trait.
- `app/` — the edges: conversions to and from `serde_json` and `rmcp`,
  schema generation from types, the `AuthProvider` trait, the `rmcp`
  `ServerHandler` impl, and the `syn` side of the derive.
- `tests/` — tests of the library.
