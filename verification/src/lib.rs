//! Characteristic classes of vector bundles: Chern, Pontryagin and Todd
//! classes over an exact polynomial ring with integer coefficients.

pub mod bundle;
pub mod decimal;
pub mod laws;
pub mod poly;
pub mod rational;
pub mod roots;
pub mod splitting;
pub mod todd;
pub mod todd_cp;
pub mod whitney;

