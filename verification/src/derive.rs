//! The logic of the `AuthSchema` derive: reading `#[requires("capability")]`
//! attributes off a type's fields or variants into a requirement table.
//!
//! The derive itself parses Rust syntax; it hands this module a model of the
//! type that holds what the logic reads, and turns the table back into code.
use vstd::prelude::*;

verus! {

broadcast use vstd::seq_lib::group_seq_properties;

/// An attribute on a field or a variant.
#[derive(Debug)]
pub enum AttrModel {
    /// A `#[requires(..)]` attribute: the capability when its argument is a
    /// single string literal, `None` when it is anything else.
    Requires(Option<String>),
    /// Any other attribute.
    Other,
}

/// A field of a struct: its name (none for a tuple field) and its attributes.
#[derive(Debug)]
pub struct FieldModel {
    pub ident: Option<String>,
    pub attrs: Vec<AttrModel>,
}

/// The fields of a struct.
#[derive(Debug)]
pub enum FieldsModel {
    Named(Vec<FieldModel>),
    Unnamed,
    Unit,
}

/// A variant of an enum: its name and its attributes.
#[derive(Debug)]
pub struct VariantModel {
    pub ident: String,
    pub attrs: Vec<AttrModel>,
}

/// The shape of the type that the derive is applied to.
#[derive(Debug)]
pub enum DataModel {
    Struct(FieldsModel),
    Enum(Vec<VariantModel>),
    Union,
}

/// Why the requirement table cannot be derived.
#[derive(Debug, Clone, Copy, PartialEq, Eq)]
pub enum DeriveError {
    /// The derive was applied to a union.
    Union,
}

/// The capability of the first `#[requires("..")]` attribute whose argument
/// is a string literal; attributes of other forms are passed over.
pub open spec fn first_requires(attrs: Seq<AttrModel>) -> Option<Seq<char>>
    decreases attrs.len(),
{
    if attrs.len() == 0 {
        None
    } else {
        match attrs[0] {
            AttrModel::Requires(Some(cap)) => Some(cap@),
            _ => first_requires(attrs.subrange(1, attrs.len() as int)),
        }
    }
}

/// The requirement pairs `(field, capability)` of named fields, in order.
pub open spec fn field_requirements(fields: Seq<FieldModel>) -> Seq<(Seq<char>, Seq<char>)>
    decreases fields.len(),
{
    if fields.len() == 0 {
        Seq::empty()
    } else {
        let rest = field_requirements(fields.drop_last());
        let f = fields.last();
        match (f.ident, first_requires(f.attrs@)) {
            (Some(id), Some(cap)) => rest.push((id@, cap)),
            _ => rest,
        }
    }
}

/// The requirement pairs `(variant, capability)` of enum variants, in order.
pub open spec fn variant_requirements(variants: Seq<VariantModel>) -> Seq<(Seq<char>, Seq<char>)>
    decreases variants.len(),
{
    if variants.len() == 0 {
        Seq::empty()
    } else {
        let rest = variant_requirements(variants.drop_last());
        let v = variants.last();
        match first_requires(v.attrs@) {
            Some(cap) => rest.push((v.ident@, cap)),
            None => rest,
        }
    }
}

/// The requirement table of a type: from its named fields for a struct
/// (none for tuple and unit structs), from its variants for an enum.
pub open spec fn requirements_of(data: DataModel) -> Result<Seq<(Seq<char>, Seq<char>)>, DeriveError> {
    match data {
        DataModel::Struct(FieldsModel::Named(fields)) => Ok(field_requirements(fields@)),
        DataModel::Struct(_) => Ok(Seq::empty()),
        DataModel::Enum(variants) => Ok(variant_requirements(variants@)),
        DataModel::Union => Err(DeriveError::Union),
    }
}

/// The views of a list of string pairs.
pub open spec fn pairs_view(pairs: Seq<(String, String)>) -> Seq<(Seq<char>, Seq<char>)> {
    pairs.map_values(|p: (String, String)| (p.0@, p.1@))
}

/// Whether an attribute with this path is a `#[requires(..)]` attribute: its
/// path is the single name `requires`.
pub open spec fn is_requires_path(path: Option<&str>) -> bool {
    match path {
        Some(p) => p@ == "requires"@,
        None => false,
    }
}

/// The model of an attribute, from its path when the path is a single name
/// (`None` otherwise) and, when its argument is a single string literal, that
/// literal's value.
pub fn attr_model(path: Option<&str>, literal: Option<String>) -> (r: AttrModel)
    ensures
        is_requires_path(path) ==> r == AttrModel::Requires(literal),
        !is_requires_path(path) ==> r is Other,
{
    match path {
        Some(p) => if crate::capability::str_eq(p, "requires") {
            AttrModel::Requires(literal)
        } else {
            AttrModel::Other
        },
        None => AttrModel::Other,
    }
}

/// Finds the capability of the first `#[requires("capability")]` attribute.
pub fn find_requires_attr(attrs: &Vec<AttrModel>) -> (r: Option<String>)
    ensures
        match r {
            Some(cap) => first_requires(attrs@) == Some(cap@),
            None => first_requires(attrs@) is None,
        },
{
    let n = attrs.len();
    assert(attrs@.subrange(0, n as int) =~= attrs@);
    for i in 0..n
        invariant
            n == attrs@.len(),
            first_requires(attrs@) == first_requires(attrs@.subrange(i as int, n as int)),
    {
        let ghost rest = attrs@.subrange(i as int, n as int);
        assert(rest.subrange(1, rest.len() as int) =~= attrs@.subrange(i + 1, n as int));
        assert(rest[0] == attrs@[i as int]);
        match &attrs[i] {
            AttrModel::Requires(Some(cap)) => {
                return Some(cap.clone());
            },
            _ => {},
        }
    }
    assert(attrs@.subrange(n as int, n as int) =~= Seq::<AttrModel>::empty());
    None
}

/// The requirement pairs of a struct's fields: those of its named fields
/// that carry a `#[requires("capability")]` attribute.
pub fn extract_struct_requirements(fields: &FieldsModel) -> (r: Vec<(String, String)>)
    ensures
        pairs_view(r@) == match fields {
            FieldsModel::Named(fs) => field_requirements(fs@),
            _ => Seq::empty(),
        },
{
    let named = match fields {
        FieldsModel::Named(f) => f,
        _ => {
            let r: Vec<(String, String)> = Vec::new();
            assert(pairs_view(r@) =~= Seq::empty());
            return r;
        },
    };
    let mut out: Vec<(String, String)> = Vec::new();
    let n = named.len();
    for i in 0..n
        invariant
            n == named@.len(),
            pairs_view(out@) == field_requirements(named@.take(i as int)),
    {
        assert(named@.take(i + 1).drop_last() =~= named@.take(i as int));
        let field = &named[i];
        if let Some(name) = &field.ident {
            if let Some(cap) = find_requires_attr(&field.attrs) {
                let ghost before = out@;
                let p = (name.clone(), cap);
                out.push(p);
                assert(pairs_view(out@) =~= pairs_view(before).push((p.0@, p.1@)));
            }
        }
    }
    assert(named@.take(n as int) =~= named@);
    out
}

/// The requirement pairs of an enum's variants: those that carry a
/// `#[requires("capability")]` attribute.
pub fn extract_enum_requirements(variants: &Vec<VariantModel>) -> (r: Vec<(String, String)>)
    ensures
        pairs_view(r@) == variant_requirements(variants@),
{
    let mut out: Vec<(String, String)> = Vec::new();
    let n = variants.len();
    for i in 0..n
        invariant
            n == variants@.len(),
            pairs_view(out@) == variant_requirements(variants@.take(i as int)),
    {
        assert(variants@.take(i + 1).drop_last() =~= variants@.take(i as int));
        let variant = &variants[i];
        if let Some(cap) = find_requires_attr(&variant.attrs) {
            let ghost before = out@;
            let p = (variant.ident.clone(), cap);
            out.push(p);
            assert(pairs_view(out@) =~= pairs_view(before).push((p.0@, p.1@)));
        }
    }
    assert(variants@.take(n as int) =~= variants@);
    out
}

/// The requirement table that `#[derive(AuthSchema)]` writes for a type, or
/// the error it reports for a union.
pub fn derive_auth_schema(data: &DataModel) -> (r: Result<Vec<(String, String)>, DeriveError>)
    ensures
        match r {
            Ok(pairs) => requirements_of(*data) == Ok::<Seq<(Seq<char>, Seq<char>)>, DeriveError>(pairs_view(pairs@)),
            Err(e) => requirements_of(*data) == Err::<Seq<(Seq<char>, Seq<char>)>, DeriveError>(e),
        },
{
    match data {
        DataModel::Struct(fields) => Ok(extract_struct_requirements(fields)),
        DataModel::Enum(variants) => Ok(extract_enum_requirements(variants)),
        DataModel::Union => Err(DeriveError::Union),
    }
}


// ---------------------------------------------------------------------------
// Laws
// ---------------------------------------------------------------------------

/// The capability that an attribute carries when it is `#[requires("..")]`
/// with a string literal.
pub open spec fn literal_capability(a: AttrModel) -> Option<Seq<char>> {
    match a {
        AttrModel::Requires(Some(cap)) => Some(cap@),
        _ => None,
    }
}

/// The capability read off a list of attributes is the one of the first
/// `#[requires("..")]` string-literal attribute, wherever it stands; other
/// attributes before it, of any kind, are passed over; with no such
/// attribute there is none.
pub proof fn lemma_first_requires_is_first_literal(attrs: Seq<AttrModel>)
    ensures
        match first_requires(attrs) {
            Some(c) => exists|j: int|
                0 <= j < attrs.len() && literal_capability(#[trigger] attrs[j]) == Some(c) && forall|k: int|
                    0 <= k < j ==> literal_capability(#[trigger] attrs[k]) is None,
            None => forall|j: int| 0 <= j < attrs.len() ==> literal_capability(#[trigger] attrs[j]) is None,
        },
    decreases attrs.len(),
{
    if attrs.len() > 0 {
        let rest = attrs.subrange(1, attrs.len() as int);
        lemma_first_requires_is_first_literal(rest);
        match attrs[0] {
            AttrModel::Requires(Some(cap)) => {
                assert(literal_capability(attrs[0]) == Some(cap@));
            },
            _ => {
                assert(literal_capability(attrs[0]) is None);
                match first_requires(rest) {
                    Some(c) => {
                        let j = choose|j: int|
                            0 <= j < rest.len() && literal_capability(#[trigger] rest[j]) == Some(c) && forall|k: int|
                                0 <= k < j ==> literal_capability(#[trigger] rest[k]) is None;
                        assert(attrs[j + 1] == rest[j]);
                        assert forall|k: int| 0 <= k < j + 1 implies literal_capability(#[trigger] attrs[k]) is None by {
                            if k > 0 {
                                assert(attrs[k] == rest[k - 1]);
                            }
                        }
                    },
                    None => {
                        assert forall|j: int| 0 <= j < attrs.len() implies literal_capability(#[trigger] attrs[j]) is None by {
                            if j > 0 {
                                assert(attrs[j] == rest[j - 1]);
                            }
                        }
                    },
                }
            },
        }
    }
}

/// Whether a variant carries a requirement.
pub open spec fn variant_has_requirement() -> spec_fn(VariantModel) -> bool {
    |v: VariantModel| first_requires(v.attrs@) is Some
}

/// The requirement pair of a variant that carries one.
pub open spec fn variant_pair() -> spec_fn(VariantModel) -> (Seq<char>, Seq<char>) {
    |v: VariantModel| (v.ident@, first_requires(v.attrs@).unwrap())
}

/// An enum's requirement table holds, in the order of the variants, one pair
/// `(variant, capability)` for each variant that carries a
/// `#[requires("..")]` string-literal attribute at any position, with the
/// capability of its first such attribute, and nothing else.
pub proof fn lemma_variant_requirements_table(variants: Seq<VariantModel>)
    ensures
        variant_requirements(variants) == variants.filter(variant_has_requirement()).map_values(variant_pair()),
    decreases variants.len(),
{
    if variants.len() > 0 {
        let d = variants.drop_last();
        let v = variants.last();
        lemma_variant_requirements_table(d);
        assert(d.push(v) =~= variants);
        d.lemma_filter_push(v, variant_has_requirement());
        if first_requires(v.attrs@) is Some {
            d.filter(variant_has_requirement()).lemma_push_map_commute(variant_pair(), v);
        }
    } else {
        assert(variants.filter(variant_has_requirement()) =~= Seq::<VariantModel>::empty()) by {
            reveal(Seq::filter);
        }
    }
}

/// Whether a field is named and carries a requirement.
pub open spec fn field_has_requirement() -> spec_fn(FieldModel) -> bool {
    |f: FieldModel| f.ident is Some && first_requires(f.attrs@) is Some
}

/// The requirement pair of a named field that carries one.
pub open spec fn field_pair() -> spec_fn(FieldModel) -> (Seq<char>, Seq<char>) {
    |f: FieldModel| (f.ident.unwrap()@, first_requires(f.attrs@).unwrap())
}

/// A struct's requirement table holds, in the order of the fields, one pair
/// `(field, capability)` for each named field that carries a
/// `#[requires("..")]` string-literal attribute at any position, with the
/// capability of its first such attribute, and nothing else.
pub proof fn lemma_field_requirements_table(fields: Seq<FieldModel>)
    ensures
        field_requirements(fields) == fields.filter(field_has_requirement()).map_values(field_pair()),
    decreases fields.len(),
{
    if fields.len() > 0 {
        let d = fields.drop_last();
        let f = fields.last();
        lemma_field_requirements_table(d);
        assert(d.push(f) =~= fields);
        d.lemma_filter_push(f, field_has_requirement());
        if f.ident is Some && first_requires(f.attrs@) is Some {
            d.filter(field_has_requirement()).lemma_push_map_commute(field_pair(), f);
        }
    } else {
        assert(fields.filter(field_has_requirement()) =~= Seq::<FieldModel>::empty()) by {
            reveal(Seq::filter);
        }
    }
}

}
