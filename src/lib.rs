//! INFS: a small in-memory filesystem engine, its virtual-filesystem layer,
//! and the tree conversions used to pack a directory tree into an image.
pub mod common;
pub mod le;
pub mod bitmap;
pub mod vfs;
pub mod pack;
