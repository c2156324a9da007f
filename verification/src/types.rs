use crate::value::{lemma_lookup_absent, lemma_lookup_found, lookup, table_view, Value, ValueView};
use vstd::prelude::*;

verus! {

/// The archiver that writes keyed archives, the only kind that is read.
pub const KEYED_ARCHIVER_CLASS_NAME: &'static str = "NSKeyedArchiver";

/// The format version that every archive carries.
pub const ARCHIVE_VERSION: u32 = 100000;

/// What can go wrong when an archive is read or written.
#[derive(Debug)]
pub enum Error {
    /// The bytes are no property list, or no archive: what the codec said of them.
    MalformedData(String),
    /// The archive was written by the named archiver, which is not the keyed one.
    UnsupportedArchiver(String),
    /// The archive names no root object.
    NoRootObject,
    /// The object table breaks the structure that decoding relies on.
    MalformedObject,
    /// No type is registered for the named class.
    UnknownClass(String),
}

/// A keyed archive: the table of objects with what surrounds it.
#[derive(Debug)]
pub struct ArchiveDict {
    /// Stored under `$archiver`.
    pub archiver_class_name: String,
    /// Stored under `$objects`: the object table.
    pub objects: Vec<Value>,
    /// Stored under `$top`: names with the table slots they stand for.
    pub top_objects: Vec<(String, u64)>,
    /// Stored under `$version`.
    pub version: u32,
}

impl ArchiveDict {
    /// The object table as mathematical values.
    pub open spec fn table(&self) -> Seq<ValueView> {
        table_view(self.objects@)
    }

    /// The top-level names with their slots.
    pub open spec fn top(&self) -> Seq<(Seq<char>, u64)> {
        Seq::new(
            self.top_objects@.len(),
            |i: int| (self.top_objects@[i].0@, self.top_objects@[i].1),
        )
    }

    /// The slot named `root`, if one is.
    pub open spec fn root(&self) -> Option<u64> {
        lookup(self.top(), "root"@)
    }

    /// The slot named `root`, if one is.
    pub fn root_object(&self) -> (root: Option<u64>)
        ensures
            root == self.root(),
    {
        let mut i: usize = 0;
        while i < self.top_objects.len()
            invariant
                i <= self.top_objects@.len(),
                forall|j: int| 0 <= j < i ==> (#[trigger] self.top()[j]).0 != "root"@,
            decreases self.top_objects@.len() - i,
        {
            if self.top_objects[i].0.as_str().eq("root") {
                proof {
                    lemma_lookup_found(self.top(), "root"@, i as int);
                }
                return Some(self.top_objects[i].1);
            }
            i += 1;
        }
        proof {
            lemma_lookup_absent(self.top(), "root"@);
        }
        None
    }
}

} // verus!
