//! Selection and caching of limb decompositions for non-native field arithmetic:
//! the cost-model search picks how many limbs of which width represent an element
//! of a target field inside constraints over a base field, and a per-context
//! cache keeps each answer with counts of its hits and misses.
pub mod cache;
pub mod search;
