//! Linked-data values and a schema-driven DAG-CBOR codec for records and unions.
//!
//! - [`ipld`] holds the value model: a recursive value with indexing, depth-first
//!   traversal and the collection of links. [`map`] holds its maps, whose entries are
//!   kept in key order, and [`error`] the type errors that indexing reports.
//! - [`ast`] describes records and unions: their fields, keys, defaults and wire
//!   representations. [`gen`] writes and reads the values of a described type, and
//!   [`cbor`] frames the items that it writes and reads.
//! - [`roundtrip`] proves that what is written reads back.
//!
//! Contracts are stated over sequences of bytes and over the views of the values, and the
//! functions are verified against them. What is taken on trust is little and is said
//! where it stands: the content identifier of the `cid` crate in [`link`], std's reading
//! and writing of decimal numbers in [`decimal`], and std's check of UTF-8 in [`cbor`].
pub mod ast;
pub mod cbor;
pub mod convert;
pub mod decimal;
pub mod error;
pub mod gen;
pub mod ipld;
pub mod link;
pub mod map;
pub mod order;
pub mod roundtrip;
