use crate::object::{get_classes, names_of, Ancestry, AnyObject, Archive, TypeRegistry};
use crate::types::{ArchiveDict, Error, ARCHIVE_VERSION, KEYED_ARCHIVER_CLASS_NAME};
use crate::value::{
    as_entries, as_reference, as_signed, as_text, inserted, lemma_array_view,
    lemma_dictionary_view, lemma_inserted_absent, lemma_inserted_lookup, lemma_inserted_refs,
    lemma_lookup_found, lemma_refs_inside_monotone, lookup, refs_inside, table_view, Dictionary,
    EntriesView, Value, ValueView,
};
use vstd::prelude::*;

verus! {

/// What an encoder writes to: an object table and the slot of the object
/// whose fields are stored.
pub struct Sink {
    pub table: Seq<ValueView>,
    pub slot: int,
}

impl Sink {
    /// The sink after `value` is stored under `key` in its object.
    pub open spec fn stored(self, key: Seq<char>, value: ValueView) -> Sink {
        Sink { table: with_field(self.table, self.slot, key, value), slot: self.slot }
    }

    /// The sink after `text` takes a new last slot and a reference to it is
    /// stored under `key`.
    pub open spec fn with_string(self, key: Seq<char>, text: Seq<char>) -> Sink {
        Sink { table: self.table.push(ValueView::String(text)), slot: self.slot }.stored(
            key,
            ValueView::Uid(self.table.len() as u64),
        )
    }

    /// The sink after the object that `after` holds in the slot past this
    /// table is closed with the record of its class, and a reference to the
    /// object is stored under `key`.
    pub open spec fn with_object(self, key: Seq<char>, after: Sink, chain: Seq<Seq<char>>) -> Sink {
        Sink {
            table: with_class(after.table, self.table.len() as int, chain),
            slot: self.slot,
        }.stored(key, ValueView::Uid(self.table.len() as u64))
    }
}

/// What the fields of a new object are stored in: `table` with an empty
/// record in a new last slot, which is the slot written to.
pub open spec fn opened(table: Seq<ValueView>) -> Sink {
    Sink { table: table.push(ValueView::Dictionary(Seq::empty())), slot: table.len() as int }
}

/// `table` with the record of the class `chain` in a new last slot, and a
/// reference to it stored under `$class` in the object at `slot`.
pub open spec fn with_class(table: Seq<ValueView>, slot: int, chain: Seq<Seq<char>>) -> Seq<
    ValueView,
> {
    with_field(
        table.push(class_info(chain)),
        slot,
        "$class"@,
        ValueView::Uid(table.len() as u64),
    )
}

/// A type that can encode data into an object archive.
///
/// Each method stores a value under a key in the object that is being encoded.
/// A key that is used again replaces what was stored before.
pub trait Encoder {
    /// The encoder has an object to store fields in.
    spec fn ready(&self) -> bool;

    /// What the encoder writes to.
    spec fn sink(&self) -> Sink;

    /// The encoder has come from `earlier` by storing fields.
    spec fn extends(&self, earlier: &Self) -> bool;

    proof fn lemma_extends_reflexive(&self)
        ensures
            self.extends(self),
    ;

    proof fn lemma_extends_transitive(&self, middle: &Self, earlier: &Self)
        requires
            self.extends(middle),
            middle.extends(earlier),
        ensures
            self.extends(earlier),
    ;

    /// Encodes an `i32` value and associates it with a given key.
    fn encode_i32(&mut self, value: i32, key: &str)
        requires
            old(self).ready(),
        ensures
            final(self).ready(),
            final(self).extends(old(self)),
            final(self).sink() == old(self).sink().stored(key@, ValueView::Integer(value as int)),
    ;

    /// Encodes an `i64` value and associates it with a given key.
    fn encode_i64(&mut self, value: i64, key: &str)
        requires
            old(self).ready(),
        ensures
            final(self).ready(),
            final(self).extends(old(self)),
            final(self).sink() == old(self).sink().stored(key@, ValueView::Integer(value as int)),
    ;

    /// Encodes a string value and associates it with a given key.
    fn encode_string(&mut self, value: &str, key: &str)
        requires
            old(self).ready(),
        ensures
            final(self).ready(),
            final(self).extends(old(self)),
            final(self).sink() == old(self).sink().with_string(key@, value@),
    ;

    /// Encodes an object and associates it with a given key.
    fn encode_object(&mut self, object: &AnyObject, key: &str)
        requires
            old(self).ready(),
        ensures
            final(self).ready(),
            final(self).extends(old(self)),
            exists|after: Sink|
                {
                    &&& #[trigger] object.encodes(opened(old(self).sink().table), after)
                    &&& final(self).sink() == old(self).sink().with_object(
                        key@,
                        after,
                        object.spec_classes(),
                    )
                },
    ;
}

/// What a decoder reads from: an object table, the slot of the object whose
/// fields are read, and the names of the classes that are registered.
pub struct Source {
    pub table: Seq<ValueView>,
    pub slot: int,
    pub classes: Seq<Seq<char>>,
}

impl Source {
    /// The same source, read at `slot`.
    pub open spec fn at(self, slot: int) -> Source {
        Source { table: self.table, slot, classes: self.classes }
    }
}

/// A type that can decode data from an object archive.
pub trait Decoder {
    /// The decoder has an object to read fields from.
    spec fn ready(&self) -> bool;

    /// What the decoder reads from.
    spec fn source(&self) -> Source;

    /// Decodes and returns an `i32` value associated with a given key:
    /// `0` where the object holds no integer under the key.
    fn decode_i32(&self, key: &str) -> (value: i32)
        requires
            self.ready(),
        ensures
            value == stored_i64(self.source().table, self.source().slot, key@) as i32,
    ;

    /// Decodes and returns an `i64` value associated with a given key:
    /// `0` where the object holds no integer under the key.
    fn decode_i64(&self, key: &str) -> (value: i64)
        requires
            self.ready(),
        ensures
            value == stored_i64(self.source().table, self.source().slot, key@),
    ;

    /// Decodes and returns a string associated with a given key: `None`
    /// where the object refers to no string under the key.
    fn decode_string(&self, key: &str) -> (value: Option<String>)
        requires
            self.ready(),
        ensures
            match value {
                Some(text) => stored_string(self.source().table, self.source().slot, key@)
                    == Some(text@),
                None => stored_string(self.source().table, self.source().slot, key@) is None,
            },
    ;

    /// Decodes and returns an object associated with a given key: `None`
    /// where the object refers to no slot under the key, or the object in
    /// that slot cannot be decoded.
    fn decode_object(&self, key: &str) -> (object: Option<AnyObject>)
        requires
            self.ready(),
        ensures
            match stored_reference(self.source().table, self.source().slot, key@) {
                Some(uid) => object matches Some(decoded) ==> {
                    &&& recorded_class(self.source().table, uid as int) == Some(
                        decoded.spec_class_name(),
                    )
                    &&& self.source().classes.contains(decoded.spec_class_name())
                },
                None => object is None,
            },
    ;
}

/// The entry that stands in slot 0 of every object table.
pub open spec fn null_placeholder() -> ValueView {
    ValueView::String("$null"@)
}

/// Every reference in `table` is to one of its slots, and none to slot 0.
pub open spec fn refs_in_bounds(table: Seq<ValueView>) -> bool {
    forall|i: int| 0 <= i < table.len() ==> refs_inside(#[trigger] table[i], table.len() as int)
}

/// `table` with `value` stored under `key` in the object record at `slot`.
pub open spec fn with_field(
    table: Seq<ValueView>,
    slot: int,
    key: Seq<char>,
    value: ValueView,
) -> Seq<ValueView> {
    table.update(slot, ValueView::Dictionary(inserted(as_entries(table[slot]).unwrap(), key, value)))
}

/// Class names as string nodes.
pub open spec fn name_nodes(classes: Seq<Seq<char>>) -> Seq<ValueView> {
    classes.map_values(|name: Seq<char>| ValueView::String(name))
}

/// The record that names a class with its ancestors: all the names under
/// `$classes`, the class's own first, and that one again under `$classname`.
pub open spec fn class_info(classes: Seq<Seq<char>>) -> ValueView {
    ValueView::Dictionary(
        seq![
            ("$classes"@, ValueView::Array(name_nodes(classes))),
            ("$classname"@, ValueView::String(classes[0])),
        ],
    )
}

/// The object record at `slot` names as its class the record in the last slot.
pub open spec fn links_last_as_class(table: Seq<ValueView>, slot: int) -> bool {
    &&& 0 <= slot < table.len() - 1
    &&& as_entries(table[slot]) matches Some(fields)
    &&& lookup(fields, "$class"@) == Some(ValueView::Uid((table.len() - 1) as u64))
}

/// A slot added to a table whose references are in bounds keeps them so,
/// where its own references are.
pub proof fn lemma_push_refs(table: Seq<ValueView>, value: ValueView)
    requires
        refs_in_bounds(table),
        refs_inside(value, table.len() as int + 1),
    ensures
        refs_in_bounds(table.push(value)),
{
    let longer = table.push(value);
    assert forall|i: int| 0 <= i < longer.len() implies refs_inside(
        #[trigger] longer[i],
        longer.len() as int,
    ) by {
        if i < table.len() {
            lemma_refs_inside_monotone(table[i], table.len() as int, longer.len() as int);
        }
    }
}

/// Builds the record that names a class with its ancestors.
fn class_info_record(classes: &Vec<&'static str>) -> (record: Value)
    requires
        classes@.len() > 0,
    ensures
        record@ == class_info(names_of(classes@)),
        forall|bound: int| refs_inside(record@, bound),
{
    let mut names: Vec<Value> = Vec::new();
    let mut i: usize = 0;
    while i < classes.len()
        invariant
            i <= classes@.len(),
            names@.len() == i,
            forall|j: int| 0 <= j < i ==> (#[trigger] names@[j])@ == ValueView::String(classes@[j]@),
        decreases classes@.len() - i,
    {
        names.push(Value::String(classes[i].to_owned()));
        i += 1;
    }
    let ghost nodes = table_view(names@);
    proof {
        lemma_array_view(names);
        assert(nodes =~= name_nodes(names_of(classes@)));
    }
    let mut info = Dictionary::new();
    info.insert("$classes".to_owned(), Value::Array(names));
    info.insert("$classname".to_owned(), Value::String(classes[0].to_owned()));
    proof {
        reveal_strlit("$classes");
        reveal_strlit("$classname");
        let first = ("$classes"@, ValueView::Array(nodes));
        let second = ("$classname"@, ValueView::String(classes@[0]@));
        assert("$classes"@.len() != "$classname"@.len());
        assert(inserted(Seq::<(Seq<char>, ValueView)>::empty(), first.0, first.1) =~= seq![first]);
        assert(seq![first].drop_first() =~= Seq::<(Seq<char>, ValueView)>::empty());
        lemma_inserted_absent(seq![first], second.0, second.1);
        assert(seq![first].push(second) =~= seq![first, second]);
        assert(names_of(classes@)[0] == classes@[0]@);
        lemma_dictionary_view(info);
        assert forall|bound: int| refs_inside(Value::Dictionary(info)@, bound) by {
            reveal_with_fuel(refs_inside, 3);
            assert forall|j: int| 0 <= j < nodes.len() implies refs_inside(#[trigger] nodes[j], bound) by {
                assert(nodes[j] == ValueView::String(classes@[j]@));
            }
        }
    }
    Value::Dictionary(info)
}

/// Builds the object table of a keyed archive.
pub struct Archiver {
    objects: Vec<Value>,
    active_object_index: Option<usize>,
}

impl Archiver {
    /// The object table built so far.
    pub closed spec fn table(&self) -> Seq<ValueView> {
        table_view(self.objects@)
    }

    /// The slot of the object that fields are stored in.
    pub closed spec fn active(&self) -> Option<usize> {
        self.active_object_index
    }

    /// The table starts with the placeholder and refers to its other slots only;
    /// the active slot, if there is one, holds an object record.
    pub open spec fn wf(&self) -> bool {
        &&& self.table().len() >= 1
        &&& self.table()[0] == null_placeholder()
        &&& refs_in_bounds(self.table())
        &&& self.active() matches Some(slot) ==> slot < self.table().len()
            && self.table()[slot as int] is Dictionary
    }

    /// The archiver is well formed and has an active slot.
    pub open spec fn accepting(&self) -> bool {
        self.wf() && self.active() is Some
    }

    /// What this archiver writes to.
    pub open spec fn writes(&self) -> Sink {
        Sink { table: self.table(), slot: self.active().unwrap() as int }
    }

    /// The archiver has come from `earlier` by storing fields in the active
    /// object: the active slot is the same, no slot is gone, and no other
    /// slot that `earlier` had has changed.
    pub open spec fn grew_from(&self, earlier: &Archiver) -> bool {
        &&& self.active() == earlier.active()
        &&& earlier.table().len() <= self.table().len()
        &&& forall|i: int|
            0 <= i < earlier.table().len() && !(earlier.active() matches Some(slot) && slot as int
                == i) ==> #[trigger] self.table()[i] == earlier.table()[i]
    }

    /// An archiver whose table holds the placeholder alone.
    pub fn new() -> (archiver: Archiver)
        ensures
            archiver.wf(),
            archiver.table() == seq![null_placeholder()],
            archiver.active() is None,
    {
        let mut objects: Vec<Value> = Vec::new();
        objects.push(Value::String("$null".to_owned()));
        let archiver = Archiver { objects, active_object_index: None };
        assert(archiver.table() =~= seq![null_placeholder()]);
        archiver
    }

    /// Encodes a new object: takes a slot for its record, lets `encode_f` store
    /// the fields in it, and adds the record that names its class, which is
    /// what `encode_f` returns. Returns the slot of the object.
    pub fn encode_new_object<F>(&mut self, encode_f: F) -> (uid: u64) where
        F: FnOnce(&mut Archiver) -> Vec<&'static str>,

        requires
            old(self).wf(),
            forall|archiver: &mut Archiver| archiver.accepting() ==> call_requires(encode_f, (archiver,)),
            forall|archiver: &mut Archiver, classes: Vec<&'static str>|
                call_ensures(encode_f, (archiver,), classes) ==> {
                    &&& final(archiver).accepting()
                    &&& final(archiver).grew_from(&*archiver)
                    &&& classes@.len() > 0
                },
        ensures
            final(self).wf(),
            final(self).active() == old(self).active(),
            uid == old(self).table().len(),
            final(self).table().len() >= uid + 2,
            forall|i: int| 0 <= i < uid ==> final(self).table()[i] == old(self).table()[i],
            links_last_as_class(final(self).table(), uid as int),
            exists|chain: Seq<Seq<char>>|
                chain.len() > 0 && final(self).table().last() == #[trigger] class_info(chain),
            forall|chain: Seq<Seq<char>>|
                (forall|archiver: &mut Archiver, classes: Vec<&'static str>|
                    #[trigger] call_ensures(encode_f, (archiver,), classes) ==> names_of(classes@)
                        == chain) ==> final(self).table().last() == #[trigger] class_info(chain),
            exists|archiver: &mut Archiver, classes: Vec<&'static str>|
                {
                    &&& archiver.writes() == opened(old(self).table())
                    &&& #[trigger] call_ensures(encode_f, (archiver,), classes)
                    &&& final(self).table() == with_class(
                        final(archiver).table(),
                        uid as int,
                        names_of(classes@),
                    )
                },
    {
        let ghost before = self.table();
        let fields = Dictionary::new();
        proof {
            lemma_dictionary_view(fields);
        }
        self.objects.push(Value::Dictionary(fields));
        let new_object_index = self.objects.len() - 1;
        let last_index = self.active_object_index;
        self.active_object_index = Some(new_object_index);
        proof {
            assert(self.table() =~= before.push(ValueView::Dictionary(Seq::empty())));
            lemma_push_refs(before, ValueView::Dictionary(Seq::empty()));
        }
        assert(self.accepting());

        let classes = encode_f(self);

        let ghost encoded = *self;
        let record = class_info_record(&classes);
        self.objects.push(record);
        let class_info_index = self.objects.len() - 1;
        proof {
            assert(self.table() =~= encoded.table().push(class_info(names_of(classes@))));
            lemma_push_refs(encoded.table(), class_info(names_of(classes@)));
        }
        self.store("$class", Value::Uid(class_info_index as u64));
        self.active_object_index = last_index;
        proof {
            let fields = as_entries(encoded.table()[new_object_index as int]).unwrap();
            let link = ValueView::Uid(class_info_index as u64);
            lemma_inserted_lookup(fields, "$class"@, link);
            assert(names_of(classes@).len() > 0);
        }
        new_object_index as u64
    }

    /// Closes the table: the archive that holds it, with `root_object` as its root.
    pub fn seal(self, root_object: u64) -> (dict: ArchiveDict)
        ensures
            dict.archiver_class_name@ == KEYED_ARCHIVER_CLASS_NAME@,
            dict.table() == self.table(),
            dict.top() == seq![("root"@, root_object)],
            dict.version == ARCHIVE_VERSION,
    {
        let mut top_objects: Vec<(String, u64)> = Vec::new();
        top_objects.push(("root".to_owned(), root_object));
        let dict = ArchiveDict {
            archiver_class_name: KEYED_ARCHIVER_CLASS_NAME.to_owned(),
            objects: self.objects,
            top_objects,
            version: ARCHIVE_VERSION,
        };
        assert(dict.top() =~= seq![("root"@, root_object)]);
        dict
    }

    /// The record of the active object, to store fields in.
    fn ensure_active_object(&mut self) -> (dictionary: &mut Dictionary)
        requires
            old(self).accepting(),
        ensures
            Some(dictionary@) == as_entries(old(self).table()[old(self).active().unwrap() as int]),
            final(self).active() == old(self).active(),
            final(self).table() == old(self).table().update(
                old(self).active().unwrap() as int,
                ValueView::Dictionary(final(dictionary)@),
            ),
    {
        let index = self.active_object_index.unwrap();
        let ghost before = self.objects@;
        let dictionary = match &mut self.objects[index] {
            Value::Dictionary(dictionary) => dictionary,
            _ => unreached(),
        };
        proof {
            lemma_dictionary_view(*dictionary);
            lemma_dictionary_view(*final(dictionary));
            assert(after_borrow(self.objects)@ == before.update(
                index as int,
                Value::Dictionary(*final(dictionary)),
            ));
            assert(table_view(after_borrow(self.objects)@) =~= table_view(before).update(
                index as int,
                ValueView::Dictionary(final(dictionary)@),
            ));
        }
        dictionary
    }

    /// Stores `value` under `key` in the record of the active object.
    fn store(&mut self, key: &str, value: Value)
        requires
            old(self).accepting(),
            refs_inside(value@, old(self).table().len() as int),
        ensures
            final(self).accepting(),
            final(self).grew_from(old(self)),
            final(self).table() == with_field(
                old(self).table(),
                old(self).active().unwrap() as int,
                key@,
                value@,
            ),
    {
        let ghost slot = self.active().unwrap() as int;
        let ghost table = self.table();
        let ghost stored = value@;
        let dictionary = self.ensure_active_object();
        dictionary.insert(key.to_owned(), value);
        proof {
            lemma_inserted_refs(as_entries(table[slot]).unwrap(), key@, stored, table.len() as int);
        }
    }
}

impl Encoder for Archiver {
    open spec fn ready(&self) -> bool {
        self.accepting()
    }

    open spec fn sink(&self) -> Sink {
        self.writes()
    }

    open spec fn extends(&self, earlier: &Self) -> bool {
        self.grew_from(earlier)
    }

    proof fn lemma_extends_reflexive(&self) {
    }

    proof fn lemma_extends_transitive(&self, middle: &Self, earlier: &Self) {
    }

    fn encode_i32(&mut self, value: i32, key: &str)
        ensures
            final(self).table() == with_field(
                old(self).table(),
                old(self).active().unwrap() as int,
                key@,
                ValueView::Integer(value as int),
            ),
    {
        self.encode_i64(value as i64, key)
    }

    fn encode_i64(&mut self, value: i64, key: &str)
        ensures
            final(self).table() == with_field(
                old(self).table(),
                old(self).active().unwrap() as int,
                key@,
                ValueView::Integer(value as int),
            ),
    {
        self.store(key, Value::Integer(value as i128));
    }

    fn encode_string(&mut self, value: &str, key: &str)
        ensures
            final(self).table() == with_field(
                old(self).table().push(ValueView::String(value@)),
                old(self).active().unwrap() as int,
                key@,
                ValueView::Uid(old(self).table().len() as u64),
            ),
    {
        let ghost before = self.table();
        self.objects.push(Value::String(value.to_owned()));
        let index = self.objects.len() - 1;
        proof {
            assert(self.table() =~= before.push(ValueView::String(value@)));
            lemma_push_refs(before, ValueView::String(value@));
        }
        self.store(key, Value::Uid(index as u64));
    }

    fn encode_object(&mut self, object: &AnyObject, key: &str)
        ensures
            final(self).table().len() >= old(self).table().len() + 2,
            links_last_as_class(final(self).table(), old(self).table().len() as int),
            final(self).table().last() == class_info(object.spec_classes()),
            as_entries(final(self).table()[old(self).active().unwrap() as int]) == Some(
                inserted(
                    as_entries(old(self).table()[old(self).active().unwrap() as int]).unwrap(),
                    key@,
                    ValueView::Uid(old(self).table().len() as u64),
                ),
            ),
    {
        let ghost before = self.writes();
        let encode_f = |archiver: &mut Archiver| -> (classes: Vec<&'static str>)
            requires
                archiver.accepting(),
            ensures
                final(archiver).accepting(),
                final(archiver).grew_from(old(archiver)),
                object.encodes(old(archiver).writes(), final(archiver).writes()),
                names_of(classes@) == object.spec_classes(),
                0 < classes@.len(),
            {
                object.encode(archiver);
                object.get_classes()
            };
        let uid = self.encode_new_object(encode_f);
        assert(exists|after: Sink|
            {
                &&& #[trigger] object.encodes(opened(before.table), after)
                &&& self.table() == with_class(after.table, uid as int, object.spec_classes())
            }) by {
            let (archiver, classes) = choose|archiver: &mut Archiver, classes: Vec<&'static str>|
                {
                    &&& archiver.writes() == opened(before.table)
                    &&& #[trigger] call_ensures(encode_f, (archiver,), classes)
                    &&& self.table() == with_class(
                        final(archiver).table(),
                        uid as int,
                        names_of(classes@),
                    )
                };
            assert(object.encodes(opened(before.table), final(archiver).writes()));
        }
        let ghost after = choose|after: Sink|
            {
                &&& #[trigger] object.encodes(opened(before.table), after)
                &&& self.table() == with_class(after.table, uid as int, object.spec_classes())
            };
        self.store(key, Value::Uid(uid));
        assert(object.encodes(opened(old(self).sink().table), after));
        assert(self.sink() == old(self).sink().with_object(key@, after, object.spec_classes()));
    }
}

/// The fields of the object record at `slot`.
pub open spec fn record_at(table: Seq<ValueView>, slot: int) -> Option<EntriesView> {
    if 0 <= slot < table.len() {
        as_entries(table[slot])
    } else {
        None
    }
}

/// What the object record at `slot` holds under `key`.
pub open spec fn field(table: Seq<ValueView>, slot: int, key: Seq<char>) -> Option<ValueView> {
    match record_at(table, slot) {
        Some(fields) => lookup(fields, key),
        None => None,
    }
}

/// The integer that the object at `slot` holds under `key`: `0` where it
/// holds none that fits `i64`.
pub open spec fn stored_i64(table: Seq<ValueView>, slot: int, key: Seq<char>) -> i64 {
    match field(table, slot, key) {
        Some(value) => match as_signed(value) {
            Some(number) => number,
            None => 0,
        },
        None => 0,
    }
}

/// The slot that the object at `slot` refers to under `key`, where it
/// refers to a slot of the table.
pub open spec fn stored_reference(table: Seq<ValueView>, slot: int, key: Seq<char>) -> Option<
    u64,
> {
    match field(table, slot, key) {
        Some(value) => match as_reference(value) {
            Some(uid) if uid < table.len() => Some(uid),
            _ => None,
        },
        None => None,
    }
}

/// The string that the object at `slot` refers to under `key`.
pub open spec fn stored_string(table: Seq<ValueView>, slot: int, key: Seq<char>) -> Option<
    Seq<char>,
> {
    match stored_reference(table, slot, key) {
        Some(uid) => as_text(table[uid as int]),
        None => None,
    }
}

/// The class name that the object at `slot` records: that of the class
/// record which it refers to.
pub open spec fn recorded_class(table: Seq<ValueView>, slot: int) -> Option<Seq<char>> {
    match stored_reference(table, slot, "$class"@) {
        Some(class) => match field(table, class as int, "$classname"@) {
            Some(value) => as_text(value),
            None => None,
        },
        None => None,
    }
}

/// What decoding the object at `slot` may give: an object of the class that
/// the slot records, where that class is registered, and else the error that
/// says what is wrong.
pub open spec fn decodes_to(
    table: Seq<ValueView>,
    names: Seq<Seq<char>>,
    slot: int,
    result: Result<AnyObject, Error>,
) -> bool {
    match recorded_class(table, slot) {
        None => result == Err::<AnyObject, Error>(Error::MalformedObject),
        Some(name) => if names.contains(name) {
            match result {
                Ok(object) => object.spec_class_name() == name,
                Err(error) => error == Error::MalformedObject,
            }
        } else {
            result matches Err(Error::UnknownClass(unknown)) && unknown@ == name
        },
    }
}

/// What reading the root object of an archive may give.
pub open spec fn unarchives_to(
    dict: ArchiveDict,
    names: Seq<Seq<char>>,
    result: Result<AnyObject, Error>,
) -> bool {
    if dict.archiver_class_name@ != KEYED_ARCHIVER_CLASS_NAME@ {
        result matches Err(Error::UnsupportedArchiver(archiver)) && archiver@
            == dict.archiver_class_name@
    } else {
        match dict.root() {
            None => result == Err::<AnyObject, Error>(Error::NoRootObject),
            Some(root) => if root >= dict.table().len() {
                result == Err::<AnyObject, Error>(Error::MalformedObject)
            } else {
                decodes_to(dict.table(), names, root as int, result)
            },
        }
    }
}

/// The result of decoding an object, from what was built for its class:
/// what was built, and `MalformedObject` where nothing was.
pub open spec fn outcome_of(built: Option<AnyObject>) -> Result<AnyObject, Error> {
    match built {
        Some(object) => Ok(object),
        None => Err(Error::MalformedObject),
    }
}

/// What a field that refers to an object holds, from the result of decoding
/// that object: the object, and nothing where decoding failed.
pub open spec fn field_of(result: Result<AnyObject, Error>) -> Option<AnyObject> {
    match result {
        Ok(decoded) => Some(decoded),
        Err(_) => None,
    }
}

/// What decoding the object at the slot of `source` may give: what
/// `decodes_to` says, and for a class that is registered the outcome of what
/// `registry` keeps for it, given `source`.
pub open spec fn decoded_from(
    source: Source,
    registry: TypeRegistry,
    result: Result<AnyObject, Error>,
) -> bool {
    &&& decodes_to(source.table, source.classes, source.slot, result)
    &&& match recorded_class(source.table, source.slot) {
        Some(name) => source.classes.contains(name) ==> exists|built: Option<AnyObject>|
            #[trigger] registry.rebuilds(name, source, built) && result == outcome_of(built),
        None => true,
    }
}

/// What reading the root object of an archive may give: what
/// `unarchives_to` says, and for a root inside the table of a keyed archive
/// what decoding the root slot may give with `registry`.
pub open spec fn unarchived_from(
    dict: ArchiveDict,
    registry: TypeRegistry,
    result: Result<AnyObject, Error>,
) -> bool {
    &&& unarchives_to(dict, registry.names(), result)
    &&& (dict.archiver_class_name@ == KEYED_ARCHIVER_CLASS_NAME@ && dict.root() is Some
        && dict.root().unwrap() < dict.table().len()) ==> decoded_from(
        Source {
            table: dict.table(),
            slot: dict.root().unwrap() as int,
            classes: registry.names(),
        },
        registry,
        result,
    )
}

/// The result of decoding an object, from what the function that is
/// registered for its class has built.
pub fn reconstructed(built: Option<AnyObject>) -> (result: Result<AnyObject, Error>)
    ensures
        result == outcome_of(built),
{
    match built {
        Some(object) => Ok(object),
        None => Err(Error::MalformedObject),
    }
}

/// What a field that refers to an object decodes to, from the result of
/// decoding that object: the object, and nothing where it failed.
pub fn decoded_field(result: Result<AnyObject, Error>) -> (object: Option<AnyObject>)
    ensures
        object == field_of(result),
{
    match result {
        Ok(decoded) => Some(decoded),
        Err(_) => None,
    }
}

/// Reads objects from the object table of a keyed archive.
pub struct Unarchiver<'t> {
    dict: &'t ArchiveDict,
    active_object: Option<u64>,
    type_registry: &'t TypeRegistry,
}

impl<'t> Unarchiver<'t> {
    /// The archive that is read.
    pub closed spec fn dict(&self) -> ArchiveDict {
        *self.dict
    }

    /// The object table that is read.
    pub open spec fn table(&self) -> Seq<ValueView> {
        self.dict().table()
    }

    /// The slot of the object that fields are read from.
    pub closed spec fn active(&self) -> Option<u64> {
        self.active_object
    }

    /// The registry that says how the objects of a class are built.
    pub closed spec fn registry(&self) -> TypeRegistry {
        *self.type_registry
    }

    /// The registry is well formed and the active slot is a slot of the table.
    pub open spec fn positioned(&self) -> bool {
        &&& self.registry().wf()
        &&& self.active() matches Some(slot) && slot < self.table().len()
    }

    /// What this unarchiver reads from.
    pub open spec fn reads(&self) -> Source {
        Source {
            table: self.table(),
            slot: self.active().unwrap() as int,
            classes: self.registry().names(),
        }
    }

    /// An unarchiver for `dict` that has no active slot yet.
    pub fn new(dict: &'t ArchiveDict, registry: &'t TypeRegistry) -> (unarchiver: Unarchiver<'t>)
        ensures
            unarchiver.dict() == *dict,
            unarchiver.registry() == *registry,
            unarchiver.active() is None,
    {
        Unarchiver { dict, active_object: None, type_registry: registry }
    }

    /// Reads the root object of the archive.
    pub fn unarchive_root_object(&self) -> (result: Result<AnyObject, Error>)
        requires
            self.registry().wf(),
        ensures
            unarchived_from(self.dict(), self.registry(), result),
    {
        let archiver_class_name = &self.dict.archiver_class_name;
        if !archiver_class_name.as_str().eq(KEYED_ARCHIVER_CLASS_NAME) {
            return Err(Error::UnsupportedArchiver(archiver_class_name.clone()));
        }
        let root_object = match self.dict.root_object() {
            Some(root_object) => root_object,
            None => {
                return Err(Error::NoRootObject);
            },
        };
        if self.dict.objects.len() as u64 <= root_object {
            return Err(Error::MalformedObject);
        }
        let rooted = Unarchiver {
            dict: self.dict,
            active_object: Some(root_object),
            type_registry: self.type_registry,
        };
        rooted.decode_active_object()
    }

    /// The entry of the active slot.
    fn ensure_active_object(&self) -> (value: &Value)
        requires
            self.positioned(),
        ensures
            value@ == self.table()[self.active().unwrap() as int],
    {
        let uid = self.active_object.unwrap();
        self.entry(uid)
    }

    /// The entry of slot `uid`.
    fn entry(&self, uid: u64) -> (value: &Value)
        requires
            uid < self.table().len(),
        ensures
            value@ == self.table()[uid as int],
    {
        let len = self.dict.objects.len();
        assert(uid < len);
        &self.dict.objects[uid as usize]
    }

    /// What the active object holds under `key`.
    fn active_field(&self, key: &str) -> (value: Option<&Value>)
        requires
            self.positioned(),
        ensures
            match value {
                Some(value) => field(self.table(), self.active().unwrap() as int, key@) == Some(
                    value@,
                ),
                None => field(self.table(), self.active().unwrap() as int, key@) is None,
            },
    {
        match self.ensure_active_object().as_dictionary() {
            Some(dictionary) => dictionary.get(key),
            None => None,
        }
    }

    /// The slot that the active object refers to under `key`.
    fn active_reference(&self, key: &str) -> (uid: Option<u64>)
        requires
            self.positioned(),
        ensures
            uid == stored_reference(self.table(), self.active().unwrap() as int, key@),
    {
        match self.active_field(key) {
            Some(value) => match value.as_uid() {
                Some(uid) => if self.dict.objects.len() as u64 <= uid {
                    None
                } else {
                    Some(uid)
                },
                None => None,
            },
            None => None,
        }
    }

    /// The class name that the active object records.
    fn active_class_name(&self) -> (name: Option<&str>)
        requires
            self.positioned(),
        ensures
            match name {
                Some(name) => recorded_class(self.table(), self.active().unwrap() as int) == Some(
                    name@,
                ),
                None => recorded_class(self.table(), self.active().unwrap() as int) is None,
            },
    {
        let class = match self.active_reference("$class") {
            Some(class) => class,
            None => {
                return None;
            },
        };
        let info = match self.entry(class).as_dictionary() {
            Some(info) => info,
            None => {
                return None;
            },
        };
        match info.get("$classname") {
            Some(value) => value.as_string(),
            None => None,
        }
    }

    /// Decodes the object of the active slot: finds the class that it
    /// records and lets what is registered for that class build the object.
    pub fn decode_active_object(&self) -> (result: Result<AnyObject, Error>)
        requires
            self.positioned(),
        ensures
            decoded_from(self.reads(), self.registry(), result),
    {
        let class_name = match self.active_class_name() {
            Some(class_name) => class_name,
            None => {
                return Err(Error::MalformedObject);
            },
        };
        let unarchive_fn = match self.type_registry.get_unarchive_fn(class_name) {
            Some(unarchive_fn) => unarchive_fn,
            None => {
                return Err(Error::UnknownClass(class_name.to_owned()));
            },
        };
        let built = unarchive_fn.reconstruct(self);
        assert(self.registry().rebuilds(class_name@, self.reads(), built));
        reconstructed(built)
    }
}

impl<'t> Decoder for Unarchiver<'t> {
    open spec fn ready(&self) -> bool {
        self.positioned()
    }

    open spec fn source(&self) -> Source {
        self.reads()
    }

    fn decode_i32(&self, key: &str) -> (value: i32)
        ensures
            value == stored_i64(self.table(), self.active().unwrap() as int, key@) as i32,
            field(self.table(), self.active().unwrap() as int, key@) is None ==> value == 0,
    {
        #[verifier::truncate]
        (self.decode_i64(key) as i32)
    }

    fn decode_i64(&self, key: &str) -> (value: i64)
        ensures
            value == stored_i64(self.table(), self.active().unwrap() as int, key@),
            field(self.table(), self.active().unwrap() as int, key@) is None ==> value == 0,
    {
        match self.active_field(key) {
            Some(value) => match value.as_signed_integer() {
                Some(number) => number,
                None => 0,
            },
            None => 0,
        }
    }

    fn decode_string(&self, key: &str) -> (value: Option<String>)
        ensures
            match value {
                Some(text) => stored_string(self.table(), self.active().unwrap() as int, key@)
                    == Some(text@),
                None => stored_string(self.table(), self.active().unwrap() as int, key@) is None,
            },
            field(self.table(), self.active().unwrap() as int, key@) is None ==> value is None,
    {
        match self.active_reference(key) {
            Some(uid) => match self.entry(uid).as_string() {
                Some(text) => Some(text.to_owned()),
                None => None,
            },
            None => None,
        }
    }

    fn decode_object(&self, key: &str) -> (object: Option<AnyObject>)
        ensures
            match stored_reference(self.table(), self.active().unwrap() as int, key@) {
                Some(uid) => {
                    &&& exists|nested: Result<AnyObject, Error>|
                        #[trigger] decoded_from(
                            self.reads().at(uid as int),
                            self.registry(),
                            nested,
                        ) && object == field_of(nested)
                    &&& object matches Some(decoded) ==> {
                        &&& recorded_class(self.table(), uid as int) == Some(
                            decoded.spec_class_name(),
                        )
                        &&& self.registry().names().contains(decoded.spec_class_name())
                    }
                },
                None => object is None,
            },
            field(self.table(), self.active().unwrap() as int, key@) is None ==> object is None,
    {
        let uid = match self.active_reference(key) {
            Some(uid) => uid,
            None => {
                return None;
            },
        };
        let nested = Unarchiver {
            dict: self.dict,
            active_object: Some(uid),
            type_registry: self.type_registry,
        };
        let result = nested.decode_active_object();
        assert(nested.reads() == self.reads().at(uid as int));
        decoded_field(result)
    }
}

/// Encodes the object graph with the given root object as a keyed archive.
pub fn to_archive_dict<O: Archive>(object: &O) -> (dict: ArchiveDict)
    ensures
        dict.archiver_class_name@ == KEYED_ARCHIVER_CLASS_NAME@,
        dict.version == ARCHIVE_VERSION,
        dict.top() == seq![("root"@, 1u64)],
        dict.root() == Some(1u64),
        dict.table().len() >= 3,
        dict.table()[0] == null_placeholder(),
        refs_in_bounds(dict.table()),
        links_last_as_class(dict.table(), 1),
        dict.table().last() == class_info(<O as Ancestry>::spec_classes()),
        <O as Ancestry>::spec_classes().len() > 0,
        <O as Ancestry>::spec_classes()[0] == O::spec_class_name(),
        exists|after: Sink|
            {
                &&& #[trigger] object.encodes(opened(seq![null_placeholder()]), after)
                &&& 2 <= after.table.len() < u64::MAX
                &&& dict.table() == with_class(after.table, 1, <O as Ancestry>::spec_classes())
            },
{
    let mut archiver = Archiver::new();
    let encode_f = |archiver: &mut Archiver| -> (classes: Vec<&'static str>)
        requires
            archiver.accepting(),
        ensures
            final(archiver).accepting(),
            final(archiver).grew_from(old(archiver)),
            object.encodes(old(archiver).writes(), final(archiver).writes()),
            names_of(classes@) == <O as Ancestry>::spec_classes(),
            classes@[0]@ == O::spec_class_name(),
            0 < classes@.len(),
        {
            object.encode(archiver);
            get_classes::<O>()
        };
    let root_object = archiver.encode_new_object(encode_f);
    proof {
        let (opened_archiver, classes) = choose|
            opened_archiver: &mut Archiver,
            classes: Vec<&'static str>,
        |
            {
                &&& opened_archiver.writes() == opened(seq![null_placeholder()])
                &&& #[trigger] call_ensures(encode_f, (opened_archiver,), classes)
                &&& archiver.table() == with_class(
                    final(opened_archiver).table(),
                    root_object as int,
                    names_of(classes@),
                )
            };
        assert(object.encodes(
            opened(seq![null_placeholder()]),
            final(opened_archiver).writes(),
        ));
        assert(archiver.objects@.len() == archiver.objects.len());
        assert(names_of(classes@)[0] == classes@[0]@);
    }
    let dict = archiver.seal(root_object);
    proof {
        lemma_lookup_found(dict.top(), "root"@, 0);
    }
    dict
}

/// Decodes the object graph of a keyed archive and returns its root object.
pub fn from_archive_dict(dict: ArchiveDict, registry: &TypeRegistry) -> (result: Result<
    AnyObject,
    Error,
>)
    requires
        registry.wf(),
    ensures
        unarchived_from(dict, *registry, result),
{
    let unarchiver = Unarchiver::new(&dict, registry);
    unarchiver.unarchive_root_object()
}

} // verus!
