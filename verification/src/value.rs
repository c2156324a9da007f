use vstd::prelude::*;

verus! {

/// A point in time: whole seconds since the Unix epoch and the nanoseconds
/// within that second.
#[derive(Clone, Copy, Debug, PartialEq, Eq)]
pub struct Date {
    pub seconds: i64,
    pub nanoseconds: u32,
}

/// One node of a property-list value tree.
#[derive(Debug, PartialEq)]
pub enum Value {
    Array(Vec<Value>),
    Dictionary(Dictionary),
    Boolean(bool),
    Data(Vec<u8>),
    Date(Date),
    /// A real number, held as the bit pattern of its IEEE 754 double.
    Real(u64),
    /// An integer between `i64::MIN` and `u64::MAX`.
    Integer(i128),
    String(String),
    /// A reference to another slot of an object table.
    Uid(u64),
}

/// A dictionary node: keys with their values, in insertion order.
///
/// Looking a key up finds its first entry, and `insert` never adds a second
/// entry for a key, so a dictionary grown by `insert` alone holds each key once.
#[derive(Debug, PartialEq)]
pub struct Dictionary {
    pub entries: Vec<(String, Value)>,
}

/// The mathematical value of a [`Value`].
pub enum ValueView {
    Array(Seq<ValueView>),
    Dictionary(Seq<(Seq<char>, ValueView)>),
    Boolean(bool),
    Data(Seq<u8>),
    Date(Date),
    Real(u64),
    Integer(int),
    String(Seq<char>),
    Uid(u64),
}

/// The entries of a dictionary node as mathematical values.
pub type EntriesView = Seq<(Seq<char>, ValueView)>;

pub open spec fn value_view(value: Value) -> ValueView
    decreases value,
{
    match value {
        Value::Array(items) => ValueView::Array(
            Seq::new(
                items@.len(),
                |i: int|
                    if 0 <= i < items@.len() {
                        value_view(items@[i])
                    } else {
                        arbitrary()
                    },
            ),
        ),
        Value::Dictionary(dictionary) => ValueView::Dictionary(
            Seq::new(
                dictionary.entries@.len(),
                |i: int|
                    if 0 <= i < dictionary.entries@.len() {
                        (dictionary.entries@[i].0@, value_view(dictionary.entries@[i].1))
                    } else {
                        arbitrary()
                    },
            ),
        ),
        Value::Boolean(b) => ValueView::Boolean(b),
        Value::Data(bytes) => ValueView::Data(bytes@),
        Value::Date(date) => ValueView::Date(date),
        Value::Real(bits) => ValueView::Real(bits),
        Value::Integer(n) => ValueView::Integer(n as int),
        Value::String(s) => ValueView::String(s@),
        Value::Uid(uid) => ValueView::Uid(uid),
    }
}

impl View for Value {
    type V = ValueView;

    open spec fn view(&self) -> ValueView {
        value_view(*self)
    }
}

impl View for Dictionary {
    type V = EntriesView;

    open spec fn view(&self) -> EntriesView {
        Seq::new(self.entries@.len(), |i: int| (self.entries@[i].0@, self.entries@[i].1@))
    }
}

/// The views of a sequence of values, slot by slot.
pub open spec fn table_view(values: Seq<Value>) -> Seq<ValueView> {
    Seq::new(values.len(), |i: int| values[i]@)
}

/// The value under `key`: that of the first entry with this key.
pub open spec fn lookup<V>(entries: Seq<(Seq<char>, V)>, key: Seq<char>) -> Option<V>
    decreases entries.len(),
{
    if entries.len() == 0 {
        None
    } else if entries[0].0 == key {
        Some(entries[0].1)
    } else {
        lookup(entries.drop_first(), key)
    }
}

/// The entries after `value` is stored under `key`: the first entry with this
/// key takes the value and keeps its place; without one, a new last entry is added.
pub open spec fn inserted<V>(entries: Seq<(Seq<char>, V)>, key: Seq<char>, value: V) -> Seq<
    (Seq<char>, V),
>
    decreases entries.len(),
{
    if entries.len() == 0 {
        seq![(key, value)]
    } else if entries[0].0 == key {
        entries.update(0, (key, value))
    } else {
        seq![entries[0]] + inserted(entries.drop_first(), key, value)
    }
}

/// Every reference inside `value` is to a slot after slot 0 and below `bound`.
pub open spec fn refs_inside(value: ValueView, bound: int) -> bool
    decreases value,
{
    match value {
        ValueView::Uid(uid) => 0 < uid < bound,
        ValueView::Array(items) => forall|i: int|
            0 <= i < items.len() ==> refs_inside(#[trigger] items[i], bound),
        ValueView::Dictionary(entries) => forall|i: int|
            0 <= i < entries.len() ==> refs_inside((#[trigger] entries[i]).1, bound),
        _ => true,
    }
}

/// The entries of `value`, where it is a dictionary node.
pub open spec fn as_entries(value: ValueView) -> Option<EntriesView> {
    match value {
        ValueView::Dictionary(entries) => Some(entries),
        _ => None,
    }
}

/// The reference in `value`, where it is a reference node.
pub open spec fn as_reference(value: ValueView) -> Option<u64> {
    match value {
        ValueView::Uid(uid) => Some(uid),
        _ => None,
    }
}

/// The text of `value`, where it is a string node.
pub open spec fn as_text(value: ValueView) -> Option<Seq<char>> {
    match value {
        ValueView::String(text) => Some(text),
        _ => None,
    }
}

/// The number in `value`, where it is an integer node whose number fits `i64`.
pub open spec fn as_signed(value: ValueView) -> Option<i64> {
    match value {
        ValueView::Integer(n) if i64::MIN <= n <= i64::MAX => Some(n as i64),
        _ => None,
    }
}

/// `str::eq` of std: two string slices are equal exactly when they hold the
/// same characters.
pub assume_specification[ <str as PartialEq>::eq ](a: &str, b: &str) -> (equal: bool)
    ensures
        equal == (a@ == b@),
;

pub proof fn lemma_dictionary_view(dictionary: Dictionary)
    ensures
        Value::Dictionary(dictionary)@ == ValueView::Dictionary(dictionary@),
{
    assert(as_entries(Value::Dictionary(dictionary)@).unwrap() =~= dictionary@);
}

pub proof fn lemma_array_view(items: Vec<Value>)
    ensures
        Value::Array(items)@ == ValueView::Array(table_view(items@)),
{
    assert(Value::Array(items)@->Array_0 =~= table_view(items@));
}

/// A key that first occurs at `index` is looked up there.
pub proof fn lemma_lookup_found<V>(entries: Seq<(Seq<char>, V)>, key: Seq<char>, index: int)
    requires
        0 <= index < entries.len(),
        entries[index].0 == key,
        forall|j: int| 0 <= j < index ==> (#[trigger] entries[j]).0 != key,
    ensures
        lookup(entries, key) == Some(entries[index].1),
    decreases index,
{
    if index > 0 {
        let rest = entries.drop_first();
        assert(forall|j: int| 0 <= j < index - 1 ==> (#[trigger] rest[j]) == entries[j + 1]);
        lemma_lookup_found(rest, key, index - 1);
    }
}

/// A key that no entry holds is not found.
pub proof fn lemma_lookup_absent<V>(entries: Seq<(Seq<char>, V)>, key: Seq<char>)
    requires
        forall|j: int| 0 <= j < entries.len() ==> (#[trigger] entries[j]).0 != key,
    ensures
        lookup(entries, key) is None,
    decreases entries.len(),
{
    if entries.len() > 0 {
        let rest = entries.drop_first();
        assert(forall|j: int| 0 <= j < rest.len() ==> (#[trigger] rest[j]) == entries[j + 1]);
        lemma_lookup_absent(rest, key);
    }
}

/// Storing under a key that no entry holds adds a last entry.
pub proof fn lemma_inserted_absent<V>(entries: Seq<(Seq<char>, V)>, key: Seq<char>, value: V)
    requires
        forall|j: int| 0 <= j < entries.len() ==> (#[trigger] entries[j]).0 != key,
    ensures
        inserted(entries, key, value) == entries.push((key, value)),
    decreases entries.len(),
{
    if entries.len() > 0 {
        let rest = entries.drop_first();
        assert(forall|j: int| 0 <= j < rest.len() ==> (#[trigger] rest[j]) == entries[j + 1]);
        lemma_inserted_absent(rest, key, value);
        assert(seq![entries[0]] + rest.push((key, value)) =~= entries.push((key, value)));
    } else {
        assert(seq![(key, value)] =~= entries.push((key, value)));
    }
}

/// Storing under a key that first occurs at `index` replaces that entry.
pub proof fn lemma_inserted_found<V>(
    entries: Seq<(Seq<char>, V)>,
    key: Seq<char>,
    value: V,
    index: int,
)
    requires
        0 <= index < entries.len(),
        entries[index].0 == key,
        forall|j: int| 0 <= j < index ==> (#[trigger] entries[j]).0 != key,
    ensures
        inserted(entries, key, value) == entries.update(index, (key, value)),
    decreases index,
{
    if index > 0 {
        let rest = entries.drop_first();
        assert(forall|j: int| 0 <= j < index - 1 ==> (#[trigger] rest[j]) == entries[j + 1]);
        lemma_inserted_found(rest, key, value, index - 1);
        assert(seq![entries[0]] + rest.update(index - 1, (key, value)) =~= entries.update(
            index,
            (key, value),
        ));
    }
}

/// What is found under a key is the value of one of the entries.
pub proof fn lemma_lookup_is_entry<V>(entries: Seq<(Seq<char>, V)>, key: Seq<char>)
    requires
        lookup(entries, key) is Some,
    ensures
        exists|i: int|
            0 <= i < entries.len() && (#[trigger] entries[i]) == (key, lookup(entries, key).unwrap()),
    decreases entries.len(),
{
    if entries[0].0 == key {
        assert(entries[0] == (key, lookup(entries, key).unwrap()));
    } else {
        let rest = entries.drop_first();
        lemma_lookup_is_entry(rest, key);
        let i = choose|i: int|
            0 <= i < rest.len() && (#[trigger] rest[i]) == (key, lookup(rest, key).unwrap());
        assert(entries[i + 1] == rest[i]);
    }
}

/// What is stored under a key is found under it.
pub proof fn lemma_inserted_lookup<V>(entries: Seq<(Seq<char>, V)>, key: Seq<char>, value: V)
    ensures
        lookup(inserted(entries, key, value), key) == Some(value),
    decreases entries.len(),
{
    if entries.len() > 0 && entries[0].0 != key {
        let rest = entries.drop_first();
        lemma_inserted_lookup(rest, key, value);
        assert((seq![entries[0]] + inserted(rest, key, value)).drop_first() =~= inserted(
            rest,
            key,
            value,
        ));
    }
}

/// What is stored under a key changes nothing under another key.
pub proof fn lemma_inserted_lookup_other<V>(
    entries: Seq<(Seq<char>, V)>,
    key: Seq<char>,
    value: V,
    other: Seq<char>,
)
    requires
        other != key,
    ensures
        lookup(inserted(entries, key, value), other) == lookup(entries, other),
    decreases entries.len(),
{
    if entries.len() > 0 {
        let rest = entries.drop_first();
        if entries[0].0 != key {
            lemma_inserted_lookup_other(rest, key, value, other);
            assert((seq![entries[0]] + inserted(rest, key, value)).drop_first() =~= inserted(
                rest,
                key,
                value,
            ));
        } else {
            assert(entries.update(0, (key, value)).drop_first() =~= rest);
        }
    } else {
        assert(seq![(key, value)].drop_first() =~= entries);
    }
}

/// Storing a value changes no entry but the one that takes the value.
pub proof fn lemma_inserted_shape<V>(entries: Seq<(Seq<char>, V)>, key: Seq<char>, value: V)
    ensures
        entries.len() <= inserted(entries, key, value).len() <= entries.len() + 1,
        forall|i: int|
            0 <= i < inserted(entries, key, value).len() ==> {
                ||| #[trigger] inserted(entries, key, value)[i] == (key, value)
                ||| i < entries.len() && inserted(entries, key, value)[i] == entries[i]
            },
    decreases entries.len(),
{
    if entries.len() > 0 && entries[0].0 != key {
        let rest = entries.drop_first();
        lemma_inserted_shape(rest, key, value);
        let after = inserted(entries, key, value);
        assert forall|i: int| 0 <= i < after.len() implies {
            ||| #[trigger] after[i] == (key, value)
            ||| i < entries.len() && after[i] == entries[i]
        } by {
            if i > 0 {
                assert(after[i] == inserted(rest, key, value)[i - 1]);
            }
        }
    }
}

/// References that are inside a bound are inside every larger one.
pub proof fn lemma_refs_inside_monotone(value: ValueView, bound: int, larger: int)
    requires
        refs_inside(value, bound),
        bound <= larger,
    ensures
        refs_inside(value, larger),
    decreases value,
{
    match value {
        ValueView::Array(items) => {
            assert forall|i: int| 0 <= i < items.len() implies refs_inside(
                #[trigger] items[i],
                larger,
            ) by {
                lemma_refs_inside_monotone(items[i], bound, larger);
            }
        },
        ValueView::Dictionary(entries) => {
            assert forall|i: int| 0 <= i < entries.len() implies refs_inside(
                (#[trigger] entries[i]).1,
                larger,
            ) by {
                lemma_refs_inside_monotone(entries[i].1, bound, larger);
            }
        },
        _ => {},
    }
}

/// Storing a value whose references are inside a bound in a dictionary whose
/// references are keeps them so.
pub proof fn lemma_inserted_refs(
    entries: EntriesView,
    key: Seq<char>,
    value: ValueView,
    bound: int,
)
    requires
        refs_inside(ValueView::Dictionary(entries), bound),
        refs_inside(value, bound),
    ensures
        refs_inside(ValueView::Dictionary(inserted(entries, key, value)), bound),
{
    lemma_inserted_shape(entries, key, value);
    let after = inserted(entries, key, value);
    assert(forall|i: int| 0 <= i < entries.len() ==> refs_inside((#[trigger] entries[i]).1, bound)) by {
        assert(as_entries(ValueView::Dictionary(entries)) == Some(entries));
    }
    assert forall|i: int| 0 <= i < after.len() implies refs_inside((#[trigger] after[i]).1, bound) by {
        if after[i] != (key, value) {
            assert(after[i] == entries[i]);
        }
    }
}

impl Value {
    /// The dictionary in a dictionary node.
    pub fn as_dictionary(&self) -> (result: Option<&Dictionary>)
        ensures
            match result {
                Some(dictionary) => as_entries(self@) == Some(dictionary@),
                None => as_entries(self@) is None,
            },
    {
        match self {
            Value::Dictionary(dictionary) => {
                proof {
                    lemma_dictionary_view(*dictionary);
                }
                Some(dictionary)
            },
            _ => None,
        }
    }

    /// The reference in a reference node.
    pub fn as_uid(&self) -> (result: Option<u64>)
        ensures
            result == as_reference(self@),
    {
        match self {
            Value::Uid(uid) => Some(*uid),
            _ => None,
        }
    }

    /// The text of a string node.
    pub fn as_string(&self) -> (result: Option<&str>)
        ensures
            match result {
                Some(text) => as_text(self@) == Some(text@),
                None => as_text(self@) is None,
            },
    {
        match self {
            Value::String(text) => Some(text.as_str()),
            _ => None,
        }
    }

    /// The number of an integer node, if it fits `i64`.
    pub fn as_signed_integer(&self) -> (result: Option<i64>)
        ensures
            result == as_signed(self@),
    {
        match self {
            Value::Integer(n) => {
                if -0x8000_0000_0000_0000i128 <= *n && *n <= 0x7fff_ffff_ffff_ffffi128 {
                    Some(*n as i64)
                } else {
                    None
                }
            },
            _ => None,
        }
    }
}

impl Dictionary {
    /// A dictionary without entries.
    pub fn new() -> (dictionary: Dictionary)
        ensures
            dictionary@ == Seq::<(Seq<char>, ValueView)>::empty(),
    {
        let dictionary = Dictionary { entries: Vec::new() };
        assert(dictionary@ =~= Seq::<(Seq<char>, ValueView)>::empty());
        dictionary
    }

    /// The position of the first entry under `key`.
    fn position(&self, key: &str) -> (result: Option<usize>)
        ensures
            match result {
                Some(index) => {
                    &&& index < self@.len()
                    &&& self@[index as int].0 == key@
                    &&& forall|j: int| 0 <= j < index ==> (#[trigger] self@[j]).0 != key@
                },
                None => forall|j: int| 0 <= j < self@.len() ==> (#[trigger] self@[j]).0 != key@,
            },
    {
        let mut i: usize = 0;
        while i < self.entries.len()
            invariant
                i <= self.entries@.len(),
                forall|j: int| 0 <= j < i ==> (#[trigger] self@[j]).0 != key@,
            decreases self.entries@.len() - i,
        {
            if self.entries[i].0.as_str().eq(key) {
                return Some(i);
            }
            i += 1;
        }
        None
    }

    /// The value stored under `key`.
    pub fn get(&self, key: &str) -> (result: Option<&Value>)
        ensures
            match result {
                Some(value) => lookup(self@, key@) == Some(value@),
                None => lookup(self@, key@) is None,
            },
    {
        match self.position(key) {
            Some(index) => {
                proof {
                    lemma_lookup_found(self@, key@, index as int);
                }
                Some(&self.entries[index].1)
            },
            None => {
                proof {
                    lemma_lookup_absent(self@, key@);
                }
                None
            },
        }
    }

    /// Stores `value` under `key`, in place of the value that the key had.
    pub fn insert(&mut self, key: String, value: Value)
        ensures
            final(self)@ == inserted(old(self)@, key@, value@),
    {
        let ghost before = self@;
        match self.position(key.as_str()) {
            Some(index) => {
                proof {
                    lemma_inserted_found(before, key@, value@, index as int);
                }
                self.entries.set(index, (key, value));
                assert(self@ =~= before.update(index as int, (key@, value@)));
            },
            None => {
                proof {
                    lemma_inserted_absent(before, key@, value@);
                }
                self.entries.push((key, value));
                assert(self@ =~= before.push((key@, value@)));
            },
        }
    }
}

} // verus!
