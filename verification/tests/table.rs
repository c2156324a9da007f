use nscoder::{
    AnyObject, Archive, Archiver, Decoder, Dictionary, Encoder, RootObject, TypeRegistry, Value,
};

#[derive(Debug, PartialEq)]
struct Person {
    age: u32,
    first_name: String,
    last_name: String,
}

impl Archive for Person {
    type Super = RootObject;

    fn class_name() -> &'static str {
        "RCDPerson"
    }

    fn encode<E: Encoder>(&self, archiver: &mut E) {
        archiver.encode_i32(self.age as i32, "Age");
        archiver.encode_string(&self.first_name, "FirstName");
        archiver.encode_string(&self.last_name, "LastName");
    }

    fn decode<D: Decoder + ?Sized>(unarchiver: &D) -> Option<Self> {
        let age = unarchiver.decode_i32("Age") as u32;
        let first_name = unarchiver.decode_string("FirstName")?;
        let last_name = unarchiver.decode_string("LastName")?;
        Some(Person { age, first_name, last_name })
    }
}

#[derive(Debug)]
struct Couple {
    id: i64,
    first: Person,
    second: Person,
}

impl Archive for Couple {
    type Super = RootObject;

    fn class_name() -> &'static str {
        "RCDCouple"
    }

    fn encode<E: Encoder>(&self, archiver: &mut E) {
        archiver.encode_i64(self.id, "Id");
        archiver.encode_object(&AnyObject::erasing(clone(&self.first)), "First");
        archiver.encode_object(&AnyObject::erasing(clone(&self.second)), "Second");
    }

    fn decode<D: Decoder + ?Sized>(unarchiver: &D) -> Option<Self> {
        let id = unarchiver.decode_i64("Id");
        let first = *unarchiver.decode_object("First")?.downcast::<Person>().ok()?;
        let second = *unarchiver.decode_object("Second")?.downcast::<Person>().ok()?;
        Some(Couple { id, first, second })
    }
}

fn clone(person: &Person) -> Person {
    Person {
        age: person.age,
        first_name: person.first_name.clone(),
        last_name: person.last_name.clone(),
    }
}

fn cyan() -> Person {
    Person { age: 26, first_name: "Cyan".to_owned(), last_name: "Yang".to_owned() }
}

fn text(value: &str) -> Value {
    Value::String(value.to_owned())
}

fn record(fields: Vec<(&str, Value)>) -> Value {
    let mut dictionary = Dictionary::new();
    for (key, value) in fields {
        dictionary.insert(key.to_owned(), value);
    }
    Value::Dictionary(dictionary)
}

fn class_record(classes: &[&str]) -> Value {
    record(vec![
        ("$classes", Value::Array(classes.iter().map(|name| text(name)).collect())),
        ("$classname", text(classes[0])),
    ])
}

fn refs_inside(value: &Value, bound: u64) -> bool {
    match value {
        Value::Uid(uid) => 0 < *uid && *uid < bound,
        Value::Array(items) => items.iter().all(|item| refs_inside(item, bound)),
        Value::Dictionary(dictionary) => {
            dictionary.entries.iter().all(|(_, item)| refs_inside(item, bound))
        }
        _ => true,
    }
}

#[test]
fn archive_of_a_person_is_laid_out_slot_by_slot() {
    let archive = nscoder::to_archive_dict(&cyan());

    assert_eq!(archive.archiver_class_name, "NSKeyedArchiver");
    assert_eq!(archive.version, 100000);
    assert_eq!(archive.top_objects, vec![("root".to_owned(), 1)]);
    assert_eq!(
        archive.objects,
        vec![
            text("$null"),
            record(vec![
                ("Age", Value::Integer(26)),
                ("FirstName", Value::Uid(2)),
                ("LastName", Value::Uid(3)),
                ("$class", Value::Uid(4)),
            ]),
            text("Cyan"),
            text("Yang"),
            class_record(&["RCDPerson", "NSObject"]),
        ]
    );
}

#[test]
fn archive_of_the_root_class_holds_its_single_name() {
    let archive = nscoder::to_archive_dict(&RootObject);
    assert_eq!(
        archive.objects,
        vec![
            text("$null"),
            record(vec![("$class", Value::Uid(2))]),
            class_record(&["NSObject"]),
        ]
    );
}

#[test]
fn nested_objects_take_two_slots_each_and_share_nothing() {
    let couple = Couple { id: 7, first: cyan(), second: cyan() };
    let archive = nscoder::to_archive_dict(&couple);

    let person = |strings: u64, class: u64| {
        record(vec![
            ("Age", Value::Integer(26)),
            ("FirstName", Value::Uid(strings)),
            ("LastName", Value::Uid(strings + 1)),
            ("$class", Value::Uid(class)),
        ])
    };
    assert_eq!(
        archive.objects,
        vec![
            text("$null"),
            record(vec![
                ("Id", Value::Integer(7)),
                ("First", Value::Uid(2)),
                ("Second", Value::Uid(6)),
                ("$class", Value::Uid(10)),
            ]),
            person(3, 5),
            text("Cyan"),
            text("Yang"),
            class_record(&["RCDPerson", "NSObject"]),
            person(7, 9),
            text("Cyan"),
            text("Yang"),
            class_record(&["RCDPerson", "NSObject"]),
            class_record(&["RCDCouple", "NSObject"]),
        ]
    );
}

#[test]
fn table_starts_with_the_placeholder_and_refers_to_its_other_slots() {
    let couple = Couple { id: 7, first: cyan(), second: cyan() };
    let archive = nscoder::to_archive_dict(&couple);

    assert_eq!(archive.objects[0], text("$null"));
    let slots = archive.objects.len() as u64;
    for value in &archive.objects {
        assert!(refs_inside(value, slots));
    }
}

#[test]
fn nested_objects_come_back() {
    let couple = Couple {
        id: -3,
        first: cyan(),
        second: Person { age: 31, first_name: "Ada".to_owned(), last_name: "Yang".to_owned() },
    };
    let archive = nscoder::to_archive_dict(&couple);

    let mut registry = TypeRegistry::new();
    registry.register_type::<Couple>();
    registry.register_type::<Person>();

    let object = nscoder::from_archive_dict(archive, &registry).unwrap();
    let decoded = object.downcast::<Couple>().ok().unwrap();
    assert_eq!(decoded.id, -3);
    assert_eq!(decoded.first, cyan());
    assert_eq!(decoded.second.age, 31);
    assert_eq!(decoded.second.first_name, "Ada");
}

#[derive(Debug)]
struct Overwriter;

impl Archive for Overwriter {
    type Super = RootObject;

    fn class_name() -> &'static str {
        "Overwriter"
    }

    fn encode<E: Encoder>(&self, archiver: &mut E) {
        archiver.encode_i64(1, "Key");
        archiver.encode_string("kept", "Other");
        archiver.encode_i32(2, "Key");
    }

    fn decode<D: Decoder + ?Sized>(_unarchiver: &D) -> Option<Self> {
        Some(Overwriter)
    }
}

#[test]
fn key_used_again_keeps_its_place_and_the_last_value() {
    let archive = nscoder::to_archive_dict(&Overwriter);
    assert_eq!(
        archive.objects[1],
        record(vec![
            ("Key", Value::Integer(2)),
            ("Other", Value::Uid(2)),
            ("$class", Value::Uid(3)),
        ])
    );
}

#[test]
fn archiver_builds_what_the_closure_stores() {
    let mut archiver = Archiver::new();
    let root = archiver.encode_new_object(|archiver| {
        archiver.encode_i64(i64::MIN, "Low");
        archiver.encode_i32(i32::MAX, "High");
        vec!["Leaf", "Branch", "NSObject"]
    });
    assert_eq!(root, 1);
    let archive = archiver.seal(root);

    assert_eq!(archive.top_objects, vec![("root".to_owned(), 1)]);
    assert_eq!(
        archive.objects,
        vec![
            text("$null"),
            record(vec![
                ("Low", Value::Integer(i64::MIN as i128)),
                ("High", Value::Integer(i32::MAX as i128)),
                ("$class", Value::Uid(2)),
            ]),
            class_record(&["Leaf", "Branch", "NSObject"]),
        ]
    );
}

#[test]
fn sealing_names_the_given_root() {
    let mut archiver = Archiver::new();
    let first = archiver.encode_new_object(|_| vec!["A"]);
    let second = archiver.encode_new_object(|_| vec!["B"]);
    assert_eq!((first, second), (1, 3));
    let archive = archiver.seal(second);
    assert_eq!(archive.top_objects, vec![("root".to_owned(), 3)]);
    assert_eq!(archive.objects.len(), 5);
}
