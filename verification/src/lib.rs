//! Raw extraction of file contents from an NTFS volume.
//!
//! The volume is read as a plain sequence of bytes; every structure that
//! NTFS keeps on disk is decoded here, without help from the operating
//! system, and every decoder states what it returns as a function of those
//! bytes. Nothing is ever written to the volume.
//!
//! The modules, from the bytes upwards:
//!
//! - [`bytes`]: byte buffers and little-endian numbers;
//! - [`disk`]: the device, read in whole sectors;
//! - [`boot`]: the boot sector and the geometry it states;
//! - [`runs`], [`stream`]: data runs, and the contents that they spell;
//! - [`attribute`], [`record`], [`attribute_list`]: file records and their
//!   attributes, within one segment and across several;
//! - [`mft`]: the master file table, from record number to record;
//! - [`index`], [`path`]: directories, and paths through them;
//! - [`writer`], [`cursor`], [`extract`]: the extraction of one attribute's
//!   contents, state by state;
//! - [`context`], [`reader`], [`launch`]: one operation as a whole, as a
//!   stream of bytes, and as a run with an exit code.

pub mod bytes;
pub mod error;
pub mod disk;
pub mod boot;
pub mod runs;
pub mod stream;
pub mod attribute;
pub mod record;
pub mod mft;
pub mod attribute_list;
pub mod index;
pub mod path;
pub mod writer;
pub mod cursor;
pub mod extract;
pub mod context;
pub mod reader;
pub mod launch;
