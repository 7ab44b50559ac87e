//! Decoding of single column values out of the row images of a MySQL binary log.

pub mod binlog;
pub mod column_type;
pub mod decimal;
pub mod error;
pub mod json_diff;
pub mod parse_buf;
pub mod temporal;
pub mod text;
pub mod value;
