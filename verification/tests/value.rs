use nscoder::{Date, Dictionary, Value};

fn text(value: &str) -> Value {
    Value::String(value.to_owned())
}

#[test]
fn new_dictionary_is_empty() {
    let dictionary = Dictionary::new();
    assert!(dictionary.entries.is_empty());
    assert_eq!(dictionary.get("key"), None);
    assert_eq!(dictionary.get(""), None);
}

#[test]
fn dictionary_keeps_insertion_order() {
    let mut dictionary = Dictionary::new();
    dictionary.insert("b".to_owned(), Value::Integer(1));
    dictionary.insert("a".to_owned(), Value::Integer(2));
    dictionary.insert("c".to_owned(), Value::Integer(3));
    let keys: Vec<&str> = dictionary.entries.iter().map(|(key, _)| key.as_str()).collect();
    assert_eq!(keys, vec!["b", "a", "c"]);
    assert_eq!(dictionary.get("a"), Some(&Value::Integer(2)));
}

#[test]
fn inserting_under_a_key_again_replaces_its_value_in_place() {
    let mut dictionary = Dictionary::new();
    dictionary.insert("b".to_owned(), Value::Integer(1));
    dictionary.insert("a".to_owned(), Value::Integer(2));
    dictionary.insert("b".to_owned(), text("new"));
    assert_eq!(
        dictionary.entries,
        vec![("b".to_owned(), text("new")), ("a".to_owned(), Value::Integer(2))]
    );
    assert_eq!(dictionary.get("b"), Some(&text("new")));
}

#[test]
fn lookup_finds_the_first_entry_of_a_key() {
    let dictionary = Dictionary {
        entries: vec![
            ("k".to_owned(), Value::Integer(1)),
            ("k".to_owned(), Value::Integer(2)),
        ],
    };
    assert_eq!(dictionary.get("k"), Some(&Value::Integer(1)));
    assert_eq!(dictionary.get("K"), None);
    assert_eq!(dictionary.get("k "), None);
}

#[test]
fn insert_into_doubled_keys_replaces_the_first() {
    let mut dictionary = Dictionary {
        entries: vec![
            ("k".to_owned(), Value::Integer(1)),
            ("k".to_owned(), Value::Integer(2)),
        ],
    };
    dictionary.insert("k".to_owned(), Value::Integer(3));
    assert_eq!(
        dictionary.entries,
        vec![("k".to_owned(), Value::Integer(3)), ("k".to_owned(), Value::Integer(2))]
    );
}

#[test]
fn keys_are_compared_by_their_characters() {
    let mut dictionary = Dictionary::new();
    dictionary.insert("é".to_owned(), Value::Boolean(true));
    assert_eq!(dictionary.get("é"), Some(&Value::Boolean(true)));
    assert_eq!(dictionary.get("e"), None);
    assert_eq!(dictionary.get("e\u{301}"), None);
}

#[test]
fn accessors_narrow_to_their_own_kind() {
    let every = vec![
        Value::Array(vec![]),
        Value::Dictionary(Dictionary::new()),
        Value::Boolean(true),
        Value::Data(vec![1, 2]),
        Value::Date(Date { seconds: 1, nanoseconds: 2 }),
        Value::Real(0x3ff0_0000_0000_0000),
        Value::Integer(5),
        text("five"),
        Value::Uid(5),
    ];
    let dictionaries: Vec<bool> = every.iter().map(|v| v.as_dictionary().is_some()).collect();
    let uids: Vec<Option<u64>> = every.iter().map(|v| v.as_uid()).collect();
    let strings: Vec<Option<&str>> = every.iter().map(|v| v.as_string()).collect();
    let integers: Vec<Option<i64>> = every.iter().map(|v| v.as_signed_integer()).collect();

    assert_eq!(dictionaries, vec![false, true, false, false, false, false, false, false, false]);
    assert_eq!(uids, vec![None, None, None, None, None, None, None, None, Some(5)]);
    assert_eq!(strings, vec![None, None, None, None, None, None, None, Some("five"), None]);
    assert_eq!(integers, vec![None, None, None, None, None, None, Some(5), None, None]);
}

#[test]
fn signed_integer_is_given_within_i64_only() {
    assert_eq!(Value::Integer(i64::MAX as i128).as_signed_integer(), Some(i64::MAX));
    assert_eq!(Value::Integer(i64::MIN as i128).as_signed_integer(), Some(i64::MIN));
    assert_eq!(Value::Integer(i64::MAX as i128 + 1).as_signed_integer(), None);
    assert_eq!(Value::Integer(i64::MIN as i128 - 1).as_signed_integer(), None);
    assert_eq!(Value::Integer(u64::MAX as i128).as_signed_integer(), None);
    assert_eq!(Value::Integer(0).as_signed_integer(), Some(0));
}

#[test]
fn dictionary_accessor_gives_the_entries() {
    let mut dictionary = Dictionary::new();
    dictionary.insert("k".to_owned(), Value::Uid(1));
    let value = Value::Dictionary(dictionary);
    assert_eq!(value.as_dictionary().unwrap().get("k"), Some(&Value::Uid(1)));
}

#[test]
fn root_slot_is_the_first_entry_named_root() {
    let archive = nscoder::ArchiveDict {
        archiver_class_name: String::new(),
        objects: vec![],
        top_objects: vec![("a".to_owned(), 1), ("root".to_owned(), 2), ("root".to_owned(), 3)],
        version: 0,
    };
    assert_eq!(archive.root_object(), Some(2));

    let without = nscoder::ArchiveDict {
        archiver_class_name: String::new(),
        objects: vec![],
        top_objects: vec![("Root".to_owned(), 1)],
        version: 0,
    };
    assert_eq!(without.root_object(), None);
}
