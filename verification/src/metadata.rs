//! The authorization metadata of a schema type.
use vstd::prelude::*;

verus! {

/// The requirement table of a type: pairs `(field or variant, capability)`.
///
/// The `AuthSchema` derive writes it from `#[requires("capability")]`
/// attributes on struct fields and enum variants.
pub trait AuthSchemaMetadata {
    fn requirements() -> &'static [(&'static str, &'static str)];
}

}
