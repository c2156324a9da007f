use nscoder::{
    Archive, ArchiveDict, Decoder, Dictionary, Encoder, Error, RootObject, TypeRegistry, Value,
};

#[derive(Debug)]
struct Foo {
    name: String,
}

impl Archive for Foo {
    type Super = RootObject;

    fn class_name() -> &'static str {
        "Foo"
    }

    fn encode<E: Encoder>(&self, archiver: &mut E) {
        archiver.encode_string(&self.name, "Name");
    }

    fn decode<D: Decoder + ?Sized>(unarchiver: &D) -> Option<Self> {
        Some(Foo { name: unarchiver.decode_string("Name")? })
    }
}

fn text(value: &str) -> Value {
    Value::String(value.to_owned())
}

fn record(fields: Vec<(&str, Value)>) -> Value {
    let mut dictionary = Dictionary::new();
    for (key, value) in fields {
        dictionary.insert(key.to_owned(), value);
    }
    Value::Dictionary(dictionary)
}

fn archive(objects: Vec<Value>) -> ArchiveDict {
    ArchiveDict {
        archiver_class_name: "NSKeyedArchiver".to_owned(),
        objects,
        top_objects: vec![("root".to_owned(), 1)],
        version: 100000,
    }
}

fn foo_registry() -> TypeRegistry {
    let mut registry = TypeRegistry::new();
    registry.register_type::<Foo>();
    registry
}

fn is_malformed_object(archive: ArchiveDict) -> bool {
    matches!(
        nscoder::from_archive_dict(archive, &foo_registry()),
        Err(Error::MalformedObject)
    )
}

#[test]
fn other_archiver_is_refused_by_name() {
    let mut archive = nscoder::to_archive_dict(&Foo { name: "x".to_owned() });
    archive.archiver_class_name = "NSArchiver".to_owned();
    match nscoder::from_archive_dict(archive, &foo_registry()) {
        Err(Error::UnsupportedArchiver(name)) => assert_eq!(name, "NSArchiver"),
        other => panic!("unexpected result: {:?}", other.map(|object| object.debug_string())),
    }
}

#[test]
fn archiver_is_checked_before_the_root() {
    let archive = ArchiveDict {
        archiver_class_name: "".to_owned(),
        objects: vec![],
        top_objects: vec![],
        version: 0,
    };
    match nscoder::from_archive_dict(archive, &foo_registry()) {
        Err(Error::UnsupportedArchiver(name)) => assert_eq!(name, ""),
        _ => panic!("expected the archiver to be refused"),
    }
}

#[test]
fn archive_without_root_has_no_root_object() {
    let mut archive = nscoder::to_archive_dict(&Foo { name: "x".to_owned() });
    archive.top_objects = vec![("Root".to_owned(), 1), ("top".to_owned(), 1)];
    assert!(matches!(
        nscoder::from_archive_dict(archive, &foo_registry()),
        Err(Error::NoRootObject)
    ));
}

#[test]
fn first_root_entry_is_the_root() {
    let mut archive = nscoder::to_archive_dict(&Foo { name: "x".to_owned() });
    archive.top_objects = vec![("other".to_owned(), 9), ("root".to_owned(), 1), ("root".to_owned(), 9)];
    assert!(nscoder::from_archive_dict(archive, &foo_registry()).is_ok());
}

#[test]
fn unregistered_class_is_unknown() {
    let archive = nscoder::to_archive_dict(&Foo { name: "x".to_owned() });
    match nscoder::from_archive_dict(archive, &TypeRegistry::new()) {
        Err(Error::UnknownClass(name)) => assert_eq!(name, "Foo"),
        _ => panic!("expected an unknown class"),
    }
}

#[test]
fn class_is_looked_up_by_its_exact_name() {
    let mut registry = TypeRegistry::new();
    registry.register_type::<RootObject>();
    let archive = nscoder::to_archive_dict(&Foo { name: "x".to_owned() });
    match nscoder::from_archive_dict(archive, &registry) {
        Err(Error::UnknownClass(name)) => assert_eq!(name, "Foo"),
        _ => panic!("expected an unknown class"),
    }
}

#[test]
fn root_outside_the_table_is_malformed() {
    let mut outside = archive(vec![text("$null")]);
    outside.top_objects = vec![("root".to_owned(), 1)];
    assert!(is_malformed_object(outside));

    let mut far = nscoder::to_archive_dict(&Foo { name: "x".to_owned() });
    far.top_objects = vec![("root".to_owned(), u64::MAX)];
    assert!(is_malformed_object(far));
}

#[test]
fn root_that_is_no_record_is_malformed() {
    assert!(is_malformed_object(archive(vec![text("$null"), text("Foo")])));
    assert!(is_malformed_object(archive(vec![text("$null"), Value::Array(vec![])])));
}

#[test]
fn record_without_class_reference_is_malformed() {
    let class = || record(vec![("$classname", text("Foo"))]);
    assert!(is_malformed_object(archive(vec![text("$null"), record(vec![]), class()])));
    assert!(is_malformed_object(archive(vec![
        text("$null"),
        record(vec![("$class", Value::Integer(2))]),
        class(),
    ])));
    assert!(is_malformed_object(archive(vec![
        text("$null"),
        record(vec![("$class", Value::Uid(3))]),
        class(),
    ])));
}

#[test]
fn class_record_without_name_is_malformed() {
    let object = || record(vec![("$class", Value::Uid(2))]);
    assert!(is_malformed_object(archive(vec![text("$null"), object(), text("Foo")])));
    assert!(is_malformed_object(archive(vec![text("$null"), object(), record(vec![])])));
    assert!(is_malformed_object(archive(vec![
        text("$null"),
        object(),
        record(vec![("$classname", Value::Uid(0))]),
    ])));
}

#[test]
fn root_that_its_type_cannot_build_is_malformed() {
    let without_name = archive(vec![
        text("$null"),
        record(vec![("$class", Value::Uid(2))]),
        record(vec![("$classname", text("Foo"))]),
    ]);
    assert!(is_malformed_object(without_name));
}

#[test]
fn class_record_needs_its_name_only() {
    let minimal = archive(vec![
        text("$null"),
        record(vec![("$class", Value::Uid(2)), ("Name", Value::Uid(3))]),
        record(vec![("$classname", text("Foo"))]),
        text("bar"),
    ]);
    let object = nscoder::from_archive_dict(minimal, &foo_registry()).unwrap();
    assert_eq!(object.downcast_ref::<Foo>().unwrap().name, "bar");
}
