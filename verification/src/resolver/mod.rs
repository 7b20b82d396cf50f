//! Symbol resolution: the symbol index and the fuzzy tier.
pub mod index;
pub mod fuzzy;
