use crate::archiver::{
    class_info, field, links_last_as_class, recorded_class, refs_in_bounds, stored_i64,
    stored_reference, stored_string, unarchived_from, unarchives_to, with_class, with_field, Sink,
    Source,
};
use crate::object::{rebuilds_as, Ancestry, AnyObject, Archive, TypeRegistry};
use crate::types::{ArchiveDict, Error, KEYED_ARCHIVER_CLASS_NAME};
use crate::value::{
    as_entries, inserted, lemma_inserted_lookup, lemma_inserted_lookup_other, lemma_lookup_found,
    lemma_lookup_is_entry, refs_inside, ValueView,
};
use vstd::prelude::*;

verus! {

/// An `i64` that is encoded under a key is what decoding the key gives.
pub proof fn lemma_i64_round_trip(table: Seq<ValueView>, slot: int, key: Seq<char>, value: i64)
    requires
        0 <= slot < table.len(),
        table[slot] is Dictionary,
    ensures
        stored_i64(with_field(table, slot, key, ValueView::Integer(value as int)), slot, key)
            == value,
{
    lemma_inserted_lookup(as_entries(table[slot]).unwrap(), key, ValueView::Integer(value as int));
}

/// An `i32` that is encoded under a key is what decoding the key gives.
pub proof fn lemma_i32_round_trip(table: Seq<ValueView>, slot: int, key: Seq<char>, value: i32)
    requires
        0 <= slot < table.len(),
        table[slot] is Dictionary,
    ensures
        stored_i64(with_field(table, slot, key, ValueView::Integer(value as int)), slot, key) as i32
            == value,
{
    lemma_inserted_lookup(as_entries(table[slot]).unwrap(), key, ValueView::Integer(value as int));
}

/// A string that is encoded under a key is what decoding the key gives.
pub proof fn lemma_string_round_trip(
    table: Seq<ValueView>,
    slot: int,
    key: Seq<char>,
    text: Seq<char>,
)
    requires
        0 <= slot < table.len() <= u64::MAX,
        table[slot] is Dictionary,
    ensures
        stored_string(
            with_field(
                table.push(ValueView::String(text)),
                slot,
                key,
                ValueView::Uid(table.len() as u64),
            ),
            slot,
            key,
        ) == Some(text),
{
    lemma_inserted_lookup(
        as_entries(table[slot]).unwrap(),
        key,
        ValueView::Uid(table.len() as u64),
    );
}

/// What is encoded under one key leaves what every other key of the object
/// holds, and what every other object holds.
pub proof fn lemma_other_fields_kept(
    table: Seq<ValueView>,
    slot: int,
    key: Seq<char>,
    value: ValueView,
    other_slot: int,
    other_key: Seq<char>,
)
    requires
        0 <= slot < table.len(),
        table[slot] is Dictionary,
        other_slot != slot || other_key != key,
    ensures
        field(with_field(table, slot, key, value), other_slot, other_key) == field(
            table,
            other_slot,
            other_key,
        ),
{
    if other_slot == slot {
        lemma_inserted_lookup_other(as_entries(table[slot]).unwrap(), key, value, other_key);
    }
}

/// A key that is used again holds what was stored last.
pub proof fn lemma_last_write_wins(
    table: Seq<ValueView>,
    slot: int,
    key: Seq<char>,
    first: ValueView,
    last: ValueView,
)
    requires
        0 <= slot < table.len(),
        table[slot] is Dictionary,
    ensures
        field(with_field(with_field(table, slot, key, first), slot, key, last), slot, key) == Some(
            last,
        ),
{
    let once = with_field(table, slot, key, first);
    lemma_inserted_lookup(as_entries(once[slot]).unwrap(), key, last);
}

/// An object that is encoded records the first name of its class chain as
/// its class.
pub proof fn lemma_class_round_trip(table: Seq<ValueView>, slot: int, chain: Seq<Seq<char>>)
    requires
        table.len() <= u64::MAX,
        links_last_as_class(table, slot),
        table.last() == class_info(chain),
    ensures
        recorded_class(table, slot) == Some(chain[0]),
{
    reveal_strlit("$classes");
    reveal_strlit("$classname");
    let info = as_entries(class_info(chain)).unwrap();
    assert("$classes"@.len() != "$classname"@.len());
    lemma_lookup_found(info, "$classname"@, 1);
}

/// An object that is encoded under a key is referred to under that key, and
/// the slot that is referred to records the class of the object.
pub proof fn lemma_object_round_trip(
    before: Seq<ValueView>,
    after: Seq<ValueView>,
    slot: int,
    key: Seq<char>,
    chain: Seq<Seq<char>>,
)
    requires
        0 <= slot < before.len() <= after.len() <= u64::MAX,
        before[slot] is Dictionary,
        as_entries(after[slot]) == Some(
            inserted(as_entries(before[slot]).unwrap(), key, ValueView::Uid(before.len() as u64)),
        ),
        links_last_as_class(after, before.len() as int),
        after.last() == class_info(chain),
    ensures
        stored_reference(after, slot, key) == Some(before.len() as u64),
        recorded_class(after, before.len() as int) == Some(chain[0]),
{
    lemma_inserted_lookup(
        as_entries(before[slot]).unwrap(),
        key,
        ValueView::Uid(before.len() as u64),
    );
    lemma_class_round_trip(after, before.len() as int, chain);
}

/// An archive of the shape that encoding gives, read with a registry that
/// knows the class of its root object, yields an object of that class, or
/// `MalformedObject` where the type could not build one: no other error.
pub proof fn lemma_encoded_archive_decodes(
    dict: ArchiveDict,
    chain: Seq<Seq<char>>,
    names: Seq<Seq<char>>,
    result: Result<AnyObject, Error>,
)
    requires
        dict.archiver_class_name@ == KEYED_ARCHIVER_CLASS_NAME@,
        dict.root() == Some(1u64),
        dict.table().len() <= u64::MAX,
        links_last_as_class(dict.table(), 1),
        dict.table().last() == class_info(chain),
        names.contains(chain[0]),
        unarchives_to(dict, names, result),
    ensures
        match result {
            Ok(object) => object.spec_class_name() == chain[0],
            Err(error) => error == Error::MalformedObject,
        },
{
    lemma_class_round_trip(dict.table(), 1, chain);
}

/// Reading the archive of a value of type `T`, with a registry in which the
/// class name of `T` stands for `T`, gives what `T::decode` gives for the
/// table that `T::encode` stored with the class record added, read at the
/// root: a container of that class made from the value that `decode` gave,
/// which a downcast to `T` gives back, or `MalformedObject` where `decode`
/// gave nothing. What `decode` gives for what `encode` stored is for the type
/// to say.
pub proof fn lemma_archive_round_trip<T: Archive + 'static>(
    dict: ArchiveDict,
    registry: TypeRegistry,
    after: Sink,
    result: Result<AnyObject, Error>,
)
    requires
        dict.archiver_class_name@ == KEYED_ARCHIVER_CLASS_NAME@,
        dict.root() == Some(1u64),
        2 <= after.table.len() < u64::MAX,
        <T as Ancestry>::spec_classes().len() > 0,
        <T as Ancestry>::spec_classes()[0] == T::spec_class_name(),
        dict.table() == with_class(after.table, 1, <T as Ancestry>::spec_classes()),
        registry.names().contains(T::spec_class_name()),
        forall|source: Source, object: Option<AnyObject>| #[trigger]
            registry.rebuilds(T::spec_class_name(), source, object) == rebuilds_as::<T>(
                source,
                object,
            ),
        unarchived_from(dict, registry, result),
    ensures
        match result {
            Ok(object) => {
                &&& object.holds::<T>()
                &&& object.spec_class_name() == T::spec_class_name()
                &&& exists|decoded: T|
                    #[trigger] T::decodes(
                        Source { table: dict.table(), slot: 1, classes: registry.names() },
                        Some(decoded),
                    ) && object.made_from(decoded)
            },
            Err(error) => {
                &&& error == Error::MalformedObject
                &&& T::decodes(
                    Source { table: dict.table(), slot: 1, classes: registry.names() },
                    None,
                )
            },
        },
{
    let chain = <T as Ancestry>::spec_classes();
    let table = dict.table();
    assert(chain[0] == T::spec_class_name());
    assert(table.len() == after.table.len() + 1);
    assert(table.last() == class_info(chain));
    lemma_inserted_lookup(
        as_entries(after.table.push(class_info(chain))[1]).unwrap(),
        "$class"@,
        ValueView::Uid(after.table.len() as u64),
    );
    assert(links_last_as_class(table, 1));
    lemma_class_round_trip(table, 1, chain);
}

/// In a table whose references are in bounds, every reference that an object
/// holds under a key is to a slot of the table.
pub proof fn lemma_references_resolve(table: Seq<ValueView>, slot: int, key: Seq<char>)
    requires
        refs_in_bounds(table),
        field(table, slot, key) matches Some(ValueView::Uid(_)),
    ensures
        stored_reference(table, slot, key) is Some,
{
    let fields = as_entries(table[slot]).unwrap();
    lemma_lookup_is_entry(fields, key);
    reveal_with_fuel(refs_inside, 2);
}

/// A key that an object does not hold decodes to `0`, to no string and to no
/// reference.
pub proof fn lemma_absent_key_defaults(table: Seq<ValueView>, slot: int, key: Seq<char>)
    requires
        field(table, slot, key) is None,
    ensures
        stored_i64(table, slot, key) == 0,
        stored_string(table, slot, key) is None,
        stored_reference(table, slot, key) is None,
{
}

} // verus!
