//! Arbitrary-precision non-negative integers in canonical little-endian form,
//! together with a small generic present/absent value type and a generic
//! minimum over a vector.

pub mod bigint;
pub mod minimum;
