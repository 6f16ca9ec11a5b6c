//! Query-text analysis, option handling and metadata shaping for a Spanner ADBC driver.

pub mod arrow;
pub mod bind;
pub mod bound;
pub mod config;
pub mod conversion;
pub mod directed_read;
pub mod discovery;
pub mod discovery_laws;
pub mod driver_laws;
pub mod endpoint;
pub mod entry;
pub mod error;
pub mod exported_error;
pub mod fuzzing;
pub mod grouping;
pub mod guard;
pub mod handle;
pub mod info;
pub mod interval;
pub mod keys;
pub mod lexer;
pub mod lexer_laws;
pub mod metadata;
pub mod nested;
pub mod number;
pub mod objects;
pub mod option_laws;
pub mod options;
pub mod query_options;
pub mod request;
pub mod result_laws;
pub mod retry;
pub mod runtime;
pub mod sql;
pub mod sql_laws;
pub mod staleness;
pub mod statement_laws;
pub mod stream;
pub mod text;
pub mod text_laws;
pub mod timeouts;
pub mod uri;
pub mod value_laws;
