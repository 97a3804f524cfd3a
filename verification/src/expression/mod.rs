//! The expression problem: to add both new terms and new interpretations to a small
//! language of integer expressions without touching what is already there.
//!
//! Three encodings are given. In each, addition and integer values come first, and
//! multiplication, evaluation and rendering are added beside them.
pub mod render;

pub mod coproduct;

pub mod object_algebras;

pub mod final_tagless;
