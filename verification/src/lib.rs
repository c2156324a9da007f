//! Cocoa keyed archiving: object graphs written to, and read from, the
//! object table of a keyed archive.
//!
//! An archive is an [`ArchiveDict`]: a table of property-list values in which
//! every object has a record of its fields and a record of its class, and
//! objects and strings are referred to by their slot. [`to_archive_dict`]
//! builds the archive of a value of a type that implements [`Archive`];
//! [`from_archive_dict`] reads the root object of an archive, with the types
//! that a [`TypeRegistry`] knows by their class names.

pub mod archiver;
pub mod laws;
pub mod object;
pub mod types;
pub mod value;

pub use self::archiver::{from_archive_dict, to_archive_dict, Archiver, Decoder, Encoder, Unarchiver};
pub use self::object::{get_classes, AnyObject, Archive, NoAncestor, RootObject, TypeRegistry};
pub use self::types::{ArchiveDict, Error};
pub use self::value::{Date, Dictionary, Value};
