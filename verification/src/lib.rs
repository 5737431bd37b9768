//! Counts how often each variant of a tagged-union type occurs.
//!
//! The schema of the host type — its variants in declaration order, each
//! with its raw annotations — is validated once by [`attrs::ParsedAttr::parse`]
//! and compiled once by [`schema::Schema::build`] into an immutable
//! [`schema::Schema`]: a dense index for every non-ignored variant, a weight
//! vector, and a group table in lexicographic name order. The schema then
//! compiles into a [`counter::Counter`], whose runtime operations never fail.

use vstd::prelude::*;

pub mod attrs;
pub mod counter;
pub mod laws;
pub mod schema;
pub mod text;

use crate::attrs::ParsedAttr;
use crate::attrs::ValidationError;
use crate::attrs::VariantDef;
use crate::attrs::parse_error;
use crate::schema::Schema;
use crate::schema::schema_model;
use crate::schema::schema_wf;

verus! {

/// Validates a variant list and compiles its schema: the whole build step,
/// run once per tagged-union type before any counter is constructed.
pub fn derive_variant_count(variants: &Vec<VariantDef>) -> (r: Result<Schema, ValidationError>)
    ensures
        match r {
            Ok(s) => parse_error(variants@) is None && s@ == schema_model(variants@)
                && schema_wf(s@),
            Err(e) => parse_error(variants@) == Some(e.deep_view()),
        },
{
    match ParsedAttr::parse(variants) {
        Ok(_) => {
            proof {
                crate::schema::lemma_tracked_positive(variants@);
            }
            Ok(Schema::build(variants))
        },
        Err(e) => Err(e),
    }
}

/// A host type whose variants can be counted: its compiled schema hands out
/// a fresh counter. Implementors wire their own tag mapping around the
/// library's [`counter::Counter`].
pub trait VariantCount {
    type Counter;

    fn counter() -> Self::Counter;
}

} // verus!
