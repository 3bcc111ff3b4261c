//! What holds of the operations taken together, proved from their
//! definitions. Each law is a public proof function named `law_...`; its
//! conditions say what room it needs in the digits and the range of a
//! scalar.
pub mod determinants;
pub mod inverses;
pub mod powers;
pub mod rounding;
pub mod spheres;
pub mod transforms;
pub mod vectors;
