//! Word-resolution engine over a curated Latin lexicon.
//!
//! The library builds an in-memory exact-match index over lexicon headwords,
//! parses the two command grammars (lookup and translate), and resolves
//! candidate words by exact lookup followed by greedy substring relaxation
//! against a backing store of lexicon rows.

pub mod entry;
pub mod index;
pub mod parse;
pub mod resolve;
pub mod store;
pub mod text;
pub mod translate;

pub use entry::Latin;
pub use index::Dictionary;
pub use index::try_from_dictionary;
pub use parse::Error;
pub use parse::is_valid_query;
pub use parse::parse_query;
pub use resolve::Relaxation;
pub use resolve::ResolutionResult;
pub use resolve::query_greedy;
pub use resolve::resolve_word;
pub use store::Store;
pub use text::contains_ci;
pub use text::str_eq;
pub use translate::LangCode;
pub use translate::parse_translatable;
