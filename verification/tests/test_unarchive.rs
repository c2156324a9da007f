use nscoder::{Archive, ArchiveDict, Decoder, Dictionary, Encoder, TypeRegistry, Value};

#[derive(Debug)]
struct MBFile {
    group_id: u32,
    inode_number: u64,
    relative_path: String,
}

impl Archive for MBFile {
    type Super = nscoder::RootObject;

    fn class_name() -> &'static str {
        "MBFile"
    }

    fn encode<E: Encoder>(&self, archiver: &mut E) {
        archiver.encode_i32(self.group_id as _, "GroupID");
        archiver.encode_i64(self.inode_number as _, "InodeNumber");
        archiver.encode_string(&self.relative_path, "RelativePath");
    }

    fn decode<D: Decoder + ?Sized>(unarchiver: &D) -> Option<Self> {
        let group_id = unarchiver.decode_i32("GroupID") as u32;
        let inode_number: u64 = unarchiver.decode_i64("InodeNumber") as u64;
        let relative_path = unarchiver.decode_string("RelativePath")?;
        Some(MBFile {
            group_id,
            inode_number,
            relative_path,
        })
    }
}

fn text(value: &str) -> Value {
    Value::String(value.to_owned())
}

/// The archive of one `MBFile` as Apple's keyed archiver lays it out: the
/// class record before the strings, keys in an order of its own, and fields
/// that `MBFile::decode` does not read.
fn mobilesync_backup() -> ArchiveDict {
    let mut file = Dictionary::new();
    file.insert("$class".to_owned(), Value::Uid(2));
    file.insert("Flags".to_owned(), Value::Integer(0));
    file.insert("GroupID".to_owned(), Value::Integer(501));
    file.insert("InodeNumber".to_owned(), Value::Integer(228000));
    file.insert("LastModified".to_owned(), Value::Integer(1700000000));
    file.insert("ProtectionClass".to_owned(), Value::Integer(0));
    file.insert("RelativePath".to_owned(), Value::Uid(3));
    file.insert("Digest".to_owned(), Value::Uid(0));
    file.insert("Size".to_owned(), Value::Integer(0));

    let mut class = Dictionary::new();
    class.insert("$classname".to_owned(), text("MBFile"));
    class.insert(
        "$classes".to_owned(),
        Value::Array(vec![text("MBFile"), text("NSObject")]),
    );

    ArchiveDict {
        archiver_class_name: "NSKeyedArchiver".to_owned(),
        objects: vec![
            text("$null"),
            Value::Dictionary(file),
            Value::Dictionary(class),
            text("Library/PersistentStores"),
        ],
        top_objects: vec![("root".to_owned(), 1)],
        version: 100000,
    }
}

#[test]
fn test_unarchive() {
    let mut registry = TypeRegistry::new();
    registry.register_type::<MBFile>();

    let archive = mobilesync_backup();
    let object = nscoder::from_archive_dict(archive, &registry).expect("should decode successfully");
    let file: &MBFile = object
        .downcast_ref()
        .expect("type of the value should be `MBFile`");

    assert_eq!(file.group_id, 501);
    assert_eq!(file.inode_number, 228000);
    assert_eq!(file.relative_path, "Library/PersistentStores");
}

#[test]
fn unarchived_object_names_its_class() {
    let mut registry = TypeRegistry::new();
    registry.register_type::<MBFile>();

    let object = nscoder::from_archive_dict(mobilesync_backup(), &registry).unwrap();
    assert_eq!(object.class_name(), "MBFile");
    assert_eq!(object.get_classes(), vec!["MBFile", "NSObject"]);
}
