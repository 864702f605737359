//! Per-request authorization for MCP tool servers.
//!
//! A caller's capabilities are an [`AuthContext`]. A [`Proof<C>`] can only be
//! obtained by checking capability `C` against it. Tools, the fields of their
//! input schemas and the variants of their output schemas can be gated by
//! capabilities: a caller is shown only the tools, fields and variants that
//! its capabilities admit.
pub mod capability;
pub mod derive;
pub mod json;
pub mod metadata;
pub mod provider;
pub mod registry;
pub mod schema;
pub mod server;

pub use capability::{AuthContext, Capability, Proof};
pub use metadata::AuthSchemaMetadata;
pub use provider::DenyByDefault;
pub use registry::{AuthToolDef, AuthToolRegistry, Tool};
pub use schema::SchemaShaper;
pub use server::AuthorizedServer;
