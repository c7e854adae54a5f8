//! Reader of picture archives: a table of picture descriptions followed by
//! the pictures themselves, each one a PCX image.

pub mod archive;
pub mod error;
pub mod image;
pub mod name;
pub mod pcx;
pub mod picture;
pub mod stream;
