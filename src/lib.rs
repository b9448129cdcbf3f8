//! A columnar take kernel and a column-chunk page reader, with their contracts.
//!
//! `take` gathers the slots of an array at the positions of an index array, over
//! booleans, primitives, decimals, strings and binary values, fixed-size binary
//! values, lists, fixed-size lists, structs, dictionaries and null arrays.
//! `GenericColumnReader` pulls the pages of one column chunk, sets up level and value
//! decoders for each data page, and fills caller buffers in batches.

pub mod array;
pub mod bitmap;
pub mod column;
pub mod error;
pub mod file;
pub mod plain;
pub mod take;
