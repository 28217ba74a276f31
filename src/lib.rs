//! Textual access to an Apple-style NVRAM image: a percent-escape codec for
//! variable values, parsing of `partition:name[=value]` references, and the
//! read / write / delete operations applied to the image's active partition.

pub mod codec;
pub mod command;
pub mod error;
pub mod image;
pub mod reference;
