//! Localization file format conversion: an intermediate representation of
//! translation resources and the parsers and writers of the text formats.
use vstd::prelude::*;

pub mod collections;
pub mod convert;
pub mod detect;
pub mod formats;
pub mod ir;
pub mod json;
pub mod pattern;
pub mod placeholder_convert;
pub mod text;
pub mod xml;

verus! {

} // verus!
