//! Identity reconciliation across line-oriented flat-file datasets.
//!
//! Every query performs a fresh linear scan over an in-memory text blob:
//! a tolerant substring scanner locates candidate lines, a line resolver
//! recovers the enclosing physical line, per-schema decoders turn lines
//! into records, and a resolver joins the records from five sources into
//! one deduplicated entity set per query.

pub mod fields;
pub mod imdb;
pub mod names;
pub mod norm;
pub mod resolver;
pub mod scan;
pub mod shims;
pub mod tmdb;
