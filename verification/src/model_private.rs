//! Typed views of an evaluated feature, for the client's convenience
//! surface.

use vstd::prelude::*;

use crate::model_public::GrowthBookAttributeValue;

verus! {

/// A feature narrowed to a boolean.
#[derive(Debug)]
pub struct BooleanFeature {
    pub enabled: bool,
    pub experiment_key: Option<String>,
}

/// A feature narrowed to a string.
#[derive(Debug)]
pub struct StringFeature {
    pub value: String,
    pub experiment_key: Option<String>,
}

/// A feature carrying any other value shape.
#[derive(Debug)]
pub struct ObjectFeature {
    pub value: GrowthBookAttributeValue,
    pub experiment_key: Option<String>,
}

/// An evaluated feature, by the shape of its value.
#[derive(Debug)]
pub enum Feature {
    Boolean(BooleanFeature),
    String(StringFeature),
    Object(ObjectFeature),
}

} // verus!
