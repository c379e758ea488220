//! Code-embedding pipeline and vector-store core.
//!
//! The crate turns source-code artifacts into fixed-length embedding
//! records, converts batches of records to and from the columnar form
//! the storage engine consumes, and states the rules of the store's
//! CRUD and similarity-search operations as verified contracts.
//!
//! [`record`] holds the unit of storage and its model; [`schema`] the
//! one shared descriptor of the table's nine columns. [`columnar`] is
//! the trusted surface over the columnar batch library; [`mapper`]
//! builds the verified two-way record/batch conversion on top of it,
//! with its round-trip law. [`store`] holds the store's own rules:
//! literal path filters, and the decisions of insert, update, get and
//! similarity search around the engine's calls. [`encoder`] covers the
//! embedding generator's computations around the tokenizer and the
//! model; [`session`] the session log bookkeeping of the surrounding
//! tool.

pub mod columnar;
pub mod encoder;
pub mod error;
pub mod mapper;
pub mod record;
pub mod schema;
pub mod session;
pub mod store;
