//! The geometric and shading kernel of a ray tracer, over fixed-point
//! numbers: tuple algebra, small square matrices with determinant and
//! inverse, affine transformations, rays, sphere intersection and Phong
//! lighting, and a canvas that serialises to plain-text PPM.
//!
//! Every number is a [`scalar::Scalar`], a count of billionths, so that
//! each result is an exact function of the operands: what a function
//! returns is stated to the last digit, rounding and saturation included.
//! Lengths, determinants, inverses and the roots of the sphere's quadratic
//! are computed in wide integers without rounding, and rounded once at the
//! end; a determinant reads as zero only where it is zero, and only there
//! does a matrix lack an inverse. The module [`laws`] proves what that
//! leaves standing of the algebra: unit length after normalizing, the
//! mirror law of reflection, the laws of the inverse and of the power, and
//! that intersections lie on the sphere.
pub mod canvas;
pub mod determinants;
pub mod intersections;
pub mod laws;
pub mod lights;
pub mod materials;
pub mod matrices;
pub mod rays;
pub mod scalar;
pub mod spheres;
pub mod transformations;
pub mod tuples;
pub mod wide;
