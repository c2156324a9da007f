use crate::archiver::{Archiver, Decoder, Encoder, Sink, Source};
use std::any::{Any, TypeId};
use std::fmt::{Debug, Write};
use vstd::prelude::*;

verus! {

/// The class names in `classes` as mathematical strings.
pub open spec fn names_of(classes: Seq<&'static str>) -> Seq<Seq<char>> {
    classes.map_values(|name: &'static str| name@)
}

/// What an archivable type inherits from: a chain of classes that can be
/// named, nearest first.
///
/// Every type that implements [`Archive`] has it, and so has [`NoAncestor`],
/// where a chain ends.
pub trait Ancestry {
    /// The class names of the chain, nearest first.
    spec fn spec_classes() -> Seq<Seq<char>>;

    /// The class names of the chain, nearest first.
    fn classes() -> (classes: Vec<&'static str>)
        ensures
            names_of(classes@) == Self::spec_classes(),
    ;
}

/// A chain of classes whose types can be registered for decoding.
pub trait Registrable: Ancestry {
    /// Registers the types of the chain, farthest first.
    fn register(registry: &mut TypeRegistry)
        requires
            old(registry).wf(),
        ensures
            final(registry).wf(),
            final(registry).names() == registered(old(registry).names(), Self::spec_classes()),
            old(registry).entries().is_prefix_of(final(registry).entries()),
    ;
}

/// The end of a chain of classes: what the root class inherits from.
#[derive(Debug)]
pub struct NoAncestor;

impl Ancestry for NoAncestor {
    open spec fn spec_classes() -> Seq<Seq<char>> {
        Seq::empty()
    }

    fn classes() -> (classes: Vec<&'static str>) {
        let classes: Vec<&'static str> = Vec::new();
        assert(names_of(classes@) =~= Seq::<Seq<char>>::empty());
        classes
    }
}

impl Registrable for NoAncestor {
    fn register(registry: &mut TypeRegistry) {
        assert(registry.entries() =~= registry.entries().subrange(
            0,
            registry.entries().len() as int,
        ));
    }
}

/// A type that can be encoded and decoded for archiving.
///
/// `Super` is the type of the object's Cocoa superclass; for a class that
/// inherits from `NSObject` it is [`RootObject`]. Decoding never follows the
/// chain of superclasses: what a superclass stores, `encode` and `decode` of
/// the type itself have to write and read.
pub trait Archive: Debug + Sized {
    /// The superclass of the type in its Cocoa class hierarchy.
    type Super: Registrable;

    /// The Cocoa class name of the type as a mathematical string. An
    /// implementation that does not state it leaves it an unspecified string
    /// that depends on the type alone.
    open spec fn spec_class_name() -> Seq<char> {
        arbitrary::<(Self, Seq<char>)>().1
    }

    /// The class names of the type and of its ancestors as mathematical
    /// strings, the type's own first. An implementation that does not state
    /// it leaves it an unspecified sequence that depends on the type alone.
    open spec fn spec_chain() -> Seq<Seq<char>> {
        arbitrary::<(Self, Seq<Seq<char>>)>().1
    }

    /// The Cocoa class name of the type: the first name of its chain, which
    /// goes on with the chain of `Super`.
    fn class_name() -> (name: &'static str)
        ensures
            name@ == Self::spec_class_name(),
            Self::spec_chain() == seq![name@] + <Self::Super as Ancestry>::spec_classes(),
    ;

    /// How `encode` may change what the archiver writes to. An
    /// implementation that does not state it leaves it open.
    open spec fn encodes(&self, before: Sink, after: Sink) -> bool {
        true
    }

    /// Encodes the fields of this object with the given archiver.
    fn encode<E: Encoder>(&self, archiver: &mut E)
        requires
            old(archiver).ready(),
        ensures
            final(archiver).ready(),
            final(archiver).extends(old(archiver)),
            self.encodes(old(archiver).sink(), final(archiver).sink()),
    ;

    /// What `decode` may give for what the unarchiver reads from. An
    /// implementation that does not state it leaves it open.
    open spec fn decodes(source: Source, object: Option<Self>) -> bool {
        true
    }

    /// Builds an object from the fields that the given unarchiver holds, or
    /// returns `None` where a field that the type needs is missing.
    fn decode<D: Decoder + ?Sized>(unarchiver: &D) -> (object: Option<Self>)
        requires
            unarchiver.ready(),
        ensures
            Self::decodes(unarchiver.source(), object),
    ;
}

impl<T: Archive> Ancestry for T {
    open spec fn spec_classes() -> Seq<Seq<char>> {
        T::spec_chain()
    }

    fn classes() -> (classes: Vec<&'static str>)
        ensures
            classes@.len() > 0,
            classes@[0]@ == T::spec_class_name(),
    {
        let mut classes = <T::Super as Ancestry>::classes();
        let ghost inherited = classes@;
        let name = T::class_name();
        classes.insert(0, name);
        assert(names_of(classes@) =~= seq![name@] + names_of(inherited));
        classes
    }
}

impl<T: Archive + 'static> Registrable for T {
    fn register(registry: &mut TypeRegistry) {
        registry.register_type::<T>()
    }
}

/// The root class (`NSObject`) of the Cocoa class hierarchy.
#[derive(Debug)]
pub struct RootObject;

impl Archive for RootObject {
    type Super = NoAncestor;

    open spec fn spec_class_name() -> Seq<char> {
        "NSObject"@
    }

    open spec fn spec_chain() -> Seq<Seq<char>> {
        seq!["NSObject"@]
    }

    fn class_name() -> (name: &'static str) {
        assert(seq!["NSObject"@] =~= seq!["NSObject"@] + Seq::<Seq<char>>::empty());
        "NSObject"
    }

    open spec fn encodes(&self, before: Sink, after: Sink) -> bool {
        after == before
    }

    fn encode<E: Encoder>(&self, archiver: &mut E) {
        proof {
            archiver.lemma_extends_reflexive();
        }
    }

    open spec fn decodes(source: Source, object: Option<Self>) -> bool {
        object is Some
    }

    fn decode<D: Decoder + ?Sized>(unarchiver: &D) -> (object: Option<Self>) {
        Some(RootObject)
    }
}

/// The class names of `T` and of its ancestors, `T`'s own first.
pub fn get_classes<T: Archive>() -> (classes: Vec<&'static str>)
    ensures
        names_of(classes@) == <T as Ancestry>::spec_classes(),
        classes@.len() > 0,
        classes@[0]@ == T::spec_class_name(),
{
    let classes = <T as Ancestry>::classes();
    assert(names_of(classes@).len() == classes@.len());
    assert(names_of(classes@)[0] == classes@[0]@);
    classes
}

/// A value whose type is forgotten: a `Box<dyn std::any::Any>`. The verifier
/// takes it as opaque, since it knows nothing of `Any`.
#[verifier::external_body]
pub struct ErasedValue {
    inner: Box<dyn Any>,
}

/// `std::any::TypeId`: the tag by which std tells types apart.
#[verifier::external_type_specification]
#[verifier::external_body]
pub struct ExTypeId(std::any::TypeId);

/// The tag of the type of the value that `value` holds: what
/// `<dyn Any>::type_id` gives for it.
pub uninterp spec fn held_tag(value: ErasedValue) -> TypeId;

/// Calls `TypeId::of::<T>()`, which gives the tag of `T`. Nothing is claimed
/// of the result.
#[verifier::external_body]
fn type_id_of<T: 'static>() -> (tag: TypeId) {
    TypeId::of::<T>()
}

/// `tag` is a tag that `TypeId::of` gives for `T`.
pub closed spec fn is_tag_of<T: 'static>(tag: TypeId) -> bool {
    call_ensures(type_id_of::<T>, (), tag)
}

/// Calls `Box::new` and forgets the type of what is boxed. Nothing is claimed
/// of the result: the call stands for "boxed from this value".
#[verifier::external_body]
fn box_any<T: 'static>(value: T) -> (erased: ErasedValue) {
    ErasedValue { inner: Box::new(value) }
}

/// `erased` is what boxing `value` gives.
pub closed spec fn made_from<T: 'static>(erased: ErasedValue, value: T) -> bool {
    call_ensures(box_any::<T>, (value,), erased)
}

/// Calls `TypeId::of` for `T` and for `U` and compares the tags. The claim is
/// what std says of tags: where those of two types differ, no tag is a tag
/// of both.
#[verifier::external_body]
fn same_tags<T: 'static, U: 'static>() -> (same: bool)
    ensures
        !same ==> (forall|tag: TypeId| !(#[trigger] is_tag_of::<T>(tag) && is_tag_of::<U>(tag))),
{
    TypeId::of::<T>() == TypeId::of::<U>()
}

impl ErasedValue {
    /// Calls `Box::new` and forgets the type of what is boxed. The claims
    /// are that the box is made from `value`, and what `Any` keeps: the tag
    /// of the type of the value.
    #[verifier::external_body]
    fn new<T: 'static>(value: T) -> (erased: ErasedValue)
        ensures
            made_from::<T>(erased, value),
            is_tag_of::<T>(held_tag(erased)),
    {
        ErasedValue { inner: Box::new(value) }
    }

    /// Calls `<dyn Any>::downcast_ref`, which gives the value exactly when
    /// the tag that is held is the tag of `T`: the value that the box was
    /// made from.
    #[verifier::external_body]
    fn downcast_ref<T: 'static>(&self) -> (typed: Option<&T>)
        ensures
            typed is Some <==> is_tag_of::<T>(held_tag(*self)),
            typed matches Some(held) ==> (forall|value: T| #[trigger]
                made_from::<T>(*self, value) ==> *held == value),
    {
        self.inner.downcast_ref::<T>()
    }

    /// Calls `Box<dyn Any>::downcast`, which gives the value exactly when the
    /// tag that is held is the tag of `T`, the value that the box was made
    /// from, and else gives the box back as it was given.
    #[verifier::external_body]
    fn downcast<T: 'static>(self) -> (result: Result<Box<T>, ErasedValue>)
        ensures
            result is Ok <==> is_tag_of::<T>(held_tag(self)),
            result matches Ok(held) ==> (forall|value: T| #[trigger]
                made_from::<T>(self, value) ==> *held == value),
            result matches Err(erased) ==> erased == self,
    {
        match self.inner.downcast::<T>() {
            Ok(typed) => Ok(typed),
            Err(inner) => Err(ErasedValue { inner }),
        }
    }
}

/// Calls `write!` with `{:?}` into a new `String`. Nothing is claimed of the
/// text: the call stands for "what `Debug` prints for this value".
#[verifier::external_body]
fn debug_text<T: Debug>(object: &T) -> (text: String) {
    let mut text = String::new();
    let _ = write!(text, "{:?}", object);
    text
}

/// `text` is what `Debug` prints for `object`.
pub closed spec fn prints_as<T: Debug>(object: &T, text: String) -> bool {
    call_ensures(debug_text::<T>, (object,), text)
}

/// Calls `write!` with `{:?}` into a new `String`, which gives what `Debug`
/// prints for `object`, as far as it prints.
#[verifier::external_body]
fn format_debug<T: Debug>(object: &T) -> (text: String)
    ensures
        prints_as::<T>(object, text),
{
    let mut text = String::new();
    let _ = write!(text, "{:?}", object);
    text
}

/// Whether `T` and `U` are one type. Where they are not, no container
/// holds both a `T` and a `U`.
pub fn is_same_type<T: 'static, U: 'static>() -> (same: bool)
    ensures
        !same ==> (forall|object: AnyObject| !(#[trigger] object.holds::<T>() && object.holds::<U>())),
{
    same_tags::<T, U>()
}

/// What an erased object can still do: the behaviour of its type, kept when
/// the type was forgotten.
pub trait ObjectOps {
    /// The class names of the type and of its ancestors.
    spec fn spec_classes(&self) -> Seq<Seq<char>>;

    /// `object` holds a value of this type.
    spec fn fits(&self, object: &ErasedValue) -> bool;

    /// How `encode` may change what the archiver writes to.
    spec fn encoded(&self, object: &ErasedValue, before: Sink, after: Sink) -> bool;

    /// Encodes the fields of `object`, which is of this type.
    fn encode(&self, object: &ErasedValue, archiver: &mut Archiver)
        requires
            self.fits(object),
            old(archiver).accepting(),
        ensures
            final(archiver).accepting(),
            final(archiver).grew_from(old(archiver)),
            self.encoded(object, old(archiver).writes(), final(archiver).writes()),
    ;

    /// The class names of the type and of its ancestors.
    fn classes(&self) -> (classes: Vec<&'static str>)
        ensures
            names_of(classes@) == self.spec_classes(),
    ;

    /// `text` is what `Debug` prints for the value that `object` holds.
    spec fn printed(&self, object: &ErasedValue, text: String) -> bool;

    /// What `Debug` prints for `object`, which is of this type.
    fn debug_string(&self, object: &ErasedValue) -> (text: String)
        requires
            self.fits(object),
        ensures
            self.printed(object, text),
    ;
}

/// The behaviour of `T`.
pub struct TypedOps<T> {
    marker: core::marker::PhantomData<T>,
}

impl<T: Archive + 'static> ObjectOps for TypedOps<T> {
    open spec fn spec_classes(&self) -> Seq<Seq<char>> {
        <T as Ancestry>::spec_classes()
    }

    open spec fn fits(&self, object: &ErasedValue) -> bool {
        is_tag_of::<T>(held_tag(*object))
    }

    open spec fn encoded(&self, object: &ErasedValue, before: Sink, after: Sink) -> bool {
        forall|typed: T| #[trigger] made_from::<T>(*object, typed) ==> typed.encodes(before, after)
    }

    open spec fn printed(&self, object: &ErasedValue, text: String) -> bool {
        forall|typed: T| #[trigger] made_from::<T>(*object, typed) ==> prints_as::<T>(&typed, text)
    }

    fn encode(&self, object: &ErasedValue, archiver: &mut Archiver) {
        match object.downcast_ref::<T>() {
            Some(typed) => typed.encode(archiver),
            None => unreached(),
        }
    }

    fn classes(&self) -> (classes: Vec<&'static str>) {
        <T as Ancestry>::classes()
    }

    fn debug_string(&self, object: &ErasedValue) -> (text: String) {
        match object.downcast_ref::<T>() {
            Some(typed) => format_debug(typed),
            None => unreached(),
        }
    }
}

/// A type-erased container that holds an object of a type that implements
/// [`Archive`].
pub struct AnyObject {
    class_name: &'static str,
    value: ErasedValue,
    ops: Box<dyn ObjectOps>,
}

impl AnyObject {
    /// The class name of the object that is held.
    pub closed spec fn spec_class_name(&self) -> Seq<char> {
        self.class_name@
    }

    /// The class names of the object that is held and of its ancestors.
    pub closed spec fn spec_classes(&self) -> Seq<Seq<char>> {
        self.ops.spec_classes()
    }

    /// How `encode` may change what the archiver writes to: as the `encode`
    /// of the type of the object that is held does.
    pub closed spec fn encodes(&self, before: Sink, after: Sink) -> bool {
        self.ops.encoded(&self.value, before, after)
    }

    /// The container was made from `value`.
    pub closed spec fn made_from<T: 'static>(&self, value: T) -> bool {
        made_from::<T>(self.value, value)
    }

    /// `text` is what `Debug` prints for the object that is held.
    pub closed spec fn prints(&self, text: String) -> bool {
        self.ops.printed(&self.value, text)
    }

    /// The object that is held is of type `T`: the tag that `Any` keeps for
    /// it is the tag of `T`.
    pub closed spec fn holds<T: 'static>(&self) -> bool {
        is_tag_of::<T>(held_tag(self.value))
    }

    #[verifier::type_invariant]
    spec fn well_formed(&self) -> bool {
        &&& self.ops.spec_classes().len() > 0
        &&& self.ops.spec_classes()[0] == self.class_name@
        &&& self.ops.fits(&self.value)
    }

    /// Erases the type of `object`, and keeps its class name, its tag and
    /// the behaviour of its type.
    pub fn erasing<T: Archive + 'static>(object: T) -> (erased: AnyObject)
        ensures
            erased.spec_class_name() == T::spec_class_name(),
            erased.spec_classes() == <T as Ancestry>::spec_classes(),
            erased.holds::<T>(),
            erased.made_from(object),
            forall|before: Sink, after: Sink| #[trigger]
                erased.encodes(before, after) ==> object.encodes(before, after),
            forall|text: String| #[trigger] erased.prints(text) ==> prints_as::<T>(&object, text),
    {
        let ops: TypedOps<T> = TypedOps { marker: core::marker::PhantomData };
        AnyObject { class_name: T::class_name(), value: ErasedValue::new(object), ops: Box::new(ops) }
    }

    /// The Cocoa class name of the object.
    pub fn class_name(&self) -> (name: &'static str)
        ensures
            name@ == self.spec_class_name(),
    {
        self.class_name
    }

    /// Gives the object back as a `T` where it is one, and else gives back
    /// the container as it was.
    pub fn downcast<T: 'static>(self) -> (result: Result<Box<T>, AnyObject>)
        ensures
            result is Ok <==> self.holds::<T>(),
            result matches Ok(held) ==> (forall|value: T| #[trigger]
                self.made_from(value) ==> *held == value),
            result matches Err(erased) ==> erased == self,
    {
        proof {
            use_type_invariant(&self);
        }
        let mut object = self;
        match object.value.downcast::<T>() {
            Ok(typed) => Ok(typed),
            Err(value) => {
                object.value = value;
                Err(object)
            },
        }
    }

    /// The object as a `T`, where it is one.
    pub fn downcast_ref<T: 'static>(&self) -> (typed: Option<&T>)
        ensures
            typed is Some <==> self.holds::<T>(),
            typed matches Some(held) ==> (forall|value: T| #[trigger]
                self.made_from(value) ==> *held == value),
    {
        self.value.downcast_ref::<T>()
    }

    /// Encodes the fields of the object with the given archiver.
    pub fn encode(&self, archiver: &mut Archiver)
        requires
            old(archiver).accepting(),
        ensures
            final(archiver).accepting(),
            final(archiver).grew_from(old(archiver)),
            self.encodes(old(archiver).writes(), final(archiver).writes()),
    {
        proof {
            use_type_invariant(self);
        }
        self.ops.encode(&self.value, archiver)
    }

    /// The class names of the object and of its ancestors, its own first.
    pub fn get_classes(&self) -> (classes: Vec<&'static str>)
        ensures
            names_of(classes@) == self.spec_classes(),
            classes@.len() > 0,
            classes@[0]@ == self.spec_class_name(),
    {
        proof {
            use_type_invariant(self);
        }
        let classes = self.ops.classes();
        assert(names_of(classes@).len() == classes@.len());
        assert(names_of(classes@)[0] == classes@[0]@);
        classes
    }

    /// What `Debug` prints for the object.
    pub fn debug_string(&self) -> (text: String)
        ensures
            self.prints(text),
    {
        proof {
            use_type_invariant(self);
        }
        self.ops.debug_string(&self.value)
    }
}

/// Builds objects of one class from what an unarchiver holds.
pub trait Reconstruct {
    /// The class of the objects that are built.
    spec fn spec_class_name(&self) -> Seq<char>;

    /// What `reconstruct` may give for what the unarchiver reads from.
    spec fn rebuilds(&self, source: Source, object: Option<AnyObject>) -> bool;

    /// Builds an object from the fields that the given unarchiver holds, or
    /// returns `None` where they do not make one.
    fn reconstruct(&self, unarchiver: &dyn Decoder) -> (object: Option<AnyObject>)
        requires
            unarchiver.ready(),
        ensures
            object matches Some(built) ==> built.spec_class_name() == self.spec_class_name(),
            self.rebuilds(unarchiver.source(), object),
    ;
}

/// What rebuilding an object of type `T` may give: nothing where `decode`
/// gave nothing, and else a container with the class chain of `T` that is
/// made from a value that `decode` gave.
pub open spec fn rebuilds_as<T: Archive + 'static>(
    source: Source,
    object: Option<AnyObject>,
) -> bool {
    match object {
        Some(built) => {
            &&& exists|decoded: T|
                #[trigger] T::decodes(source, Some(decoded)) && built.made_from(decoded)
            &&& built.spec_class_name() == T::spec_class_name()
            &&& built.spec_classes() == <T as Ancestry>::spec_classes()
            &&& built.holds::<T>()
        },
        None => T::decodes(source, None),
    }
}

/// Builds objects of type `T`.
pub struct Reconstructor<T> {
    marker: core::marker::PhantomData<T>,
}

impl<T: Archive + 'static> Reconstruct for Reconstructor<T> {
    open spec fn spec_class_name(&self) -> Seq<char> {
        T::spec_class_name()
    }

    open spec fn rebuilds(&self, source: Source, object: Option<AnyObject>) -> bool {
        rebuilds_as::<T>(source, object)
    }

    fn reconstruct(&self, unarchiver: &dyn Decoder) -> (object: Option<AnyObject>) {
        match T::decode(unarchiver) {
            Some(decoded) => {
                let ghost held = decoded;
                let built = AnyObject::erasing(decoded);
                assert(T::decodes(unarchiver.source(), Some(held)) && built.made_from(held));
                Some(built)
            },
            None => None,
        }
    }
}

/// What a registry keeps for a class.
pub type UnarchiveFn = Box<dyn Reconstruct>;

/// A registered class: its name with what builds its objects.
pub struct RegistryEntry {
    pub class_name: &'static str,
    pub unarchive_fn: UnarchiveFn,
}

impl RegistryEntry {
    /// The entry of the class of `T`.
    fn of<T: Archive + 'static>() -> (entry: RegistryEntry)
        ensures
            entry.class_name@ == T::spec_class_name(),
            entry.unarchive_fn.spec_class_name() == T::spec_class_name(),
            forall|source: Source, object: Option<AnyObject>| #[trigger]
                entry.unarchive_fn.rebuilds(source, object) == rebuilds_as::<T>(source, object),
            <T as Ancestry>::spec_classes() == seq![entry.class_name@]
                + <T::Super as Ancestry>::spec_classes(),
    {
        let reconstructor: Reconstructor<T> = Reconstructor { marker: core::marker::PhantomData };
        assert(reconstructor.spec_class_name() == T::spec_class_name());
        let class_name = T::class_name();
        let entry = RegistryEntry { class_name, unarchive_fn: Box::new(reconstructor) };
        assert(entry.unarchive_fn.spec_class_name() == reconstructor.spec_class_name());
        entry
    }
}

/// The names after the classes of `chain` are registered, the last of the
/// chain first: a name that is there already is not added again.
pub open spec fn registered(names: Seq<Seq<char>>, chain: Seq<Seq<char>>) -> Seq<Seq<char>>
    decreases chain.len(),
{
    if chain.len() == 0 {
        names
    } else {
        let inherited = registered(names, chain.drop_first());
        if inherited.contains(chain[0]) {
            inherited
        } else {
            inherited.push(chain[0])
        }
    }
}

/// Registers custom types so that they can be instantiated by the
/// unarchiver later.
///
/// Each class name is kept once, with what was registered for it first.
pub struct TypeRegistry {
    unarchive_fns: Vec<RegistryEntry>,
}

impl TypeRegistry {
    /// The registered classes, in the order of registration.
    pub closed spec fn entries(&self) -> Seq<RegistryEntry> {
        self.unarchive_fns@
    }

    /// The names of the registered classes, in the order of registration.
    pub open spec fn names(&self) -> Seq<Seq<char>> {
        Seq::new(self.entries().len(), |i: int| self.entries()[i].class_name@)
    }

    /// What is registered for `class_name` may give `object` for what the
    /// unarchiver reads from.
    pub open spec fn rebuilds(
        &self,
        class_name: Seq<char>,
        source: Source,
        object: Option<AnyObject>,
    ) -> bool {
        exists|i: int|
            0 <= i < self.entries().len() && #[trigger] self.names()[i] == class_name
                && self.entries()[i].unarchive_fn.rebuilds(source, object)
    }

    /// Each name is registered once, and each class is built by what is kept
    /// for it.
    pub open spec fn wf(&self) -> bool {
        &&& self.names().no_duplicates()
        &&& forall|i: int|
            0 <= i < self.entries().len() ==> (#[trigger] self.entries()[i]).unarchive_fn.spec_class_name()
                == self.entries()[i].class_name@
    }

    /// Constructs a new `TypeRegistry`, in which no class is registered.
    pub fn new() -> (registry: TypeRegistry)
        ensures
            registry.wf(),
            registry.entries() == Seq::<RegistryEntry>::empty(),
    {
        TypeRegistry { unarchive_fns: Vec::new() }
    }

    /// Registers a given type, and before it the types that it inherits from.
    ///
    /// A class name that is registered already keeps what it has.
    pub fn register_type<T: Archive + 'static>(&mut self)
        requires
            old(self).wf(),
        ensures
            final(self).wf(),
            final(self).names() == registered(old(self).names(), <T as Ancestry>::spec_classes()),
            old(self).entries().is_prefix_of(final(self).entries()),
            !registered(old(self).names(), <T::Super as Ancestry>::spec_classes()).contains(
                T::spec_class_name(),
            ) ==> forall|source: Source, object: Option<AnyObject>| #[trigger]
                final(self).rebuilds(T::spec_class_name(), source, object) == rebuilds_as::<T>(
                    source,
                    object,
                ),
    {
        let ghost before = self.entries();
        <T::Super as Registrable>::register(self);
        let ghost inherited = self.entries();
        self.register_class::<T>();
        proof {
            let chain = <T as Ancestry>::spec_classes();
            assert(chain.drop_first() =~= <T::Super as Ancestry>::spec_classes());
            assert(before =~= self.entries().subrange(0, before.len() as int)) by {
                assert(before =~= inherited.subrange(0, before.len() as int));
                assert(inherited =~= self.entries().subrange(0, inherited.len() as int));
            }
        }
    }

    /// Registers `T` alone, unless its class name is registered already.
    pub fn register_class<T: Archive + 'static>(&mut self)
        requires
            old(self).wf(),
        ensures
            final(self).wf(),
            final(self).names() == if old(self).names().contains(T::spec_class_name()) {
                old(self).names()
            } else {
                old(self).names().push(T::spec_class_name())
            },
            old(self).entries().is_prefix_of(final(self).entries()),
            !old(self).names().contains(T::spec_class_name()) ==> forall|
                source: Source,
                object: Option<AnyObject>,
            | #[trigger]
                final(self).rebuilds(T::spec_class_name(), source, object) == rebuilds_as::<T>(
                    source,
                    object,
                ),
            final(self).names().contains(T::spec_class_name()),
            <T as Ancestry>::spec_classes() == seq![T::spec_class_name()]
                + <T::Super as Ancestry>::spec_classes(),
    {
        let ghost names = self.names();
        let ghost kept = self.entries();
        let entry = RegistryEntry::of::<T>();
        match self.position(entry.class_name) {
            Some(_) => {
                assert(kept =~= kept.subrange(0, kept.len() as int));
            },
            None => {
                self.unarchive_fns.push(entry);
                proof {
                    assert(self.names() =~= names.push(T::spec_class_name()));
                    assert(kept =~= self.entries().subrange(0, kept.len() as int));
                    assert forall|i: int, j: int|
                        0 <= i < self.names().len() && 0 <= j < self.names().len() && i != j implies self.names()[i]
                        != self.names()[j] by {
                        if i < names.len() && j < names.len() {
                            assert(names[i] != names[j]);
                        } else if i < names.len() {
                            assert(names.contains(names[i]));
                        } else {
                            assert(names.contains(names[j]));
                        }
                    }
                    let name = T::spec_class_name();
                    let last = self.entries().len() - 1;
                    assert(self.names()[last] == name);
                    assert forall|source: Source, object: Option<AnyObject>| #[trigger]
                        self.rebuilds(name, source, object) == rebuilds_as::<T>(
                            source,
                            object,
                        ) by {
                        assert(self.entries()[last].unarchive_fn.rebuilds(source, object)
                            == rebuilds_as::<T>(source, object));
                        if self.rebuilds(name, source, object) {
                            let i = choose|i: int|
                                0 <= i < self.entries().len() && #[trigger] self.names()[i] == name
                                    && self.entries()[i].unarchive_fn.rebuilds(source, object);
                            assert(i == last);
                        }
                    }
                }
            },
        }
    }

    /// Where `class_name` is registered.
    fn position(&self, class_name: &str) -> (result: Option<usize>)
        ensures
            match result {
                Some(index) => index < self.names().len() && self.names()[index as int]
                    == class_name@,
                None => !self.names().contains(class_name@),
            },
    {
        let mut i: usize = 0;
        while i < self.unarchive_fns.len()
            invariant
                i <= self.entries().len(),
                forall|j: int| 0 <= j < i ==> (#[trigger] self.names()[j]) != class_name@,
            decreases self.entries().len() - i,
        {
            if self.unarchive_fns[i].class_name.eq(class_name) {
                return Some(i);
            }
            i += 1;
        }
        None
    }

    /// What is kept for `class_name`, if the class is registered.
    pub fn get_unarchive_fn(&self, class_name: &str) -> (result: Option<&UnarchiveFn>)
        requires
            self.wf(),
        ensures
            result is Some <==> self.names().contains(class_name@),
            result matches Some(unarchive_fn) ==> {
                &&& unarchive_fn.spec_class_name() == class_name@
                &&& exists|i: int|
                    0 <= i < self.entries().len() && #[trigger] self.names()[i] == class_name@
                        && self.entries()[i].unarchive_fn == *unarchive_fn
            },
    {
        match self.position(class_name) {
            Some(index) => {
                assert(self.names()[index as int] == class_name@);
                Some(&self.unarchive_fns[index].unarchive_fn)
            },
            None => None,
        }
    }
}

impl Default for TypeRegistry {
    fn default() -> (registry: TypeRegistry)
        ensures
            registry.wf(),
            registry.entries() == Seq::<RegistryEntry>::empty(),
    {
        TypeRegistry::new()
    }
}

} // verus!
