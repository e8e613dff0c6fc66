//! Detection of direct and inverted terminal repeats at the ends of
//! nucleotide sequences, with complexity and ambiguity filters.

pub mod bases;
pub mod detect;
pub mod filters;
pub mod fraction;
pub mod resolve;
pub mod output;
