//! Typed memory for a coding agent.
//!
//! Notes live in markdown files. Each section is classified into a kind
//! (fact, decision, preference, ...), queries are decomposed into the kinds
//! they need, and what a search returns is composed into sections that a
//! prompt can hold. A small set of active sections is pinned and injected
//! without any search.

pub mod compose;
pub mod kind;
pub mod laws;
pub mod memory_context;
pub mod promote;
pub mod schema;
pub mod sections;
pub mod text;
pub mod text_facts;
