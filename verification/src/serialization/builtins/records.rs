//! The descriptors of the named fields of a record.

use crate::result::{DataResult, ErrorView};
use crate::serialization::builtins::codecs::{decode_entry, decodes_entry};
use crate::serialization::ops::{entry_model, CodecOps};
use crate::serialization::views::{MapLensMut, MapView, MapViewMut};
use crate::serialization::{decoded, encoded, Codec};
use crate::tree::{EntryOutcome, Tree};
use std::marker::PhantomData;
use vstd::prelude::*;

verus! {

/// One named slot of a record of type `S`: how the slot's value is taken
/// from a record and written under the slot's key, and how it is read back
/// from a map.
pub trait Field<S, OT, O: CodecOps<OT>> {
    /// What decoding the slot gives.
    type Value;

    /// The key of the slot.
    spec fn key(&self) -> Seq<char>;

    /// Whether preparing the entry of `record` for this slot may end in
    /// `out`.
    spec fn encodes_field(&self, record: S, out: EntryOutcome) -> bool;

    /// Whether reading the slot from a map with the entries `entries` may
    /// end in `out`, leaving the entries `after`.
    spec fn decodes_field(
        &self,
        entries: Map<Seq<char>, Tree>,
        after: Map<Seq<char>, Tree>,
        out: Result<Self::Value, ErrorView>,
    ) -> bool;

    /// Prepares the entry of `record` for this slot.
    fn encode_field(&self, ops: &O, record: &S) -> (r: Option<DataResult<(String, OT)>>)
        ensures
            self.encodes_field(*record, entry_model(|n: OT| ops.tree(n), r)),
    ;

    /// Reads the slot from the map behind `lens`.
    fn decode_field(&self, ops: &O, lens: &mut MapLensMut<'_, OT, O>) -> (r: DataResult<
        Self::Value,
    >)
        requires
            old(lens).wf(),
            old(lens).ops() == ops,
        ensures
            final(lens).wf(),
            final(lens).ops() == ops,
            *final(final(lens).slot()) == *final(old(lens).slot()),
            self.decodes_field(old(lens).entries(), final(lens).entries(), decoded(r)),
    ;
}

/// Whether the getter `f` may hand out `part` for `whole`.
pub open spec fn gets<S, P, G: Fn(&S) -> &P>(f: G, whole: S, part: P) -> bool {
    call_ensures(f, (&whole,), &part)
}

/// A slot that every record fills.
#[verifier::reject_recursive_types(T)]
#[verifier::reject_recursive_types(S)]
pub struct RecordField<T, C, S, G, OT, O> where
    C: Codec<T, OT, O>,
    G: Fn(&S) -> &T,
    O: CodecOps<OT>,
 {
    field_name: String,
    getter: G,
    codec: C,
    _phantom: PhantomData<(T, S, OT, O)>,
}

impl<T, C, S, G, OT, O> RecordField<T, C, S, G, OT, O> where
    C: Codec<T, OT, O>,
    G: Fn(&S) -> &T,
    O: CodecOps<OT>,
 {
    #[verifier::type_invariant]
    spec fn getter_is_total(self) -> bool {
        forall|record: &S| call_requires(self.getter, (record,))
    }

    /// The key of the slot.
    pub closed spec fn name(&self) -> Seq<char> {
        self.field_name@
    }

    /// The function that takes the slot's value from a record.
    pub closed spec fn getter(&self) -> G {
        self.getter
    }

    /// The codec of the slot's value.
    pub closed spec fn codec(&self) -> C {
        self.codec
    }

    /// The slot `name`, whose value `getter` takes from a record and `codec`
    /// handles. `getter` must accept every record.
    pub fn new(name: &str, getter: G, codec: C) -> (r: Self)
        requires
            forall|record: &S| call_requires(getter, (record,)),
        ensures
            r.name() == name@,
            r.getter() == getter,
            r.codec() == codec,
            r.defined(),
    {
        RecordField { field_name: name.to_owned(), getter, codec, _phantom: PhantomData }
    }
}

/// What an encoded value stands for as the entry under `key`.
pub open spec fn keyed(key: Seq<char>, out: Result<Tree, ErrorView>) -> EntryOutcome {
    match out {
        Ok(tree) => Some(Ok((key, tree))),
        Err(e) => Some(Err(e)),
    }
}

impl<T, C, S, G, OT, O> RecordField<T, C, S, G, OT, O> where
    C: Codec<T, OT, O>,
    G: Fn(&S) -> &T,
    O: CodecOps<OT>,
 {
    /// Whether preparing the entry of `record` may end in `out`: the codec
    /// encodes what the getter hands out, under the key of the field.
    pub open spec fn may_encode_field(&self, record: S, out: EntryOutcome) -> bool {
        exists|value: T, written: Result<Tree, ErrorView>|
            #[trigger] gets(self.getter(), record, value) && #[trigger] self.codec().encodes(
                value,
                written,
            ) && out == keyed(self.name(), written)
    }

    /// Whether reading the field may end in `out`: the codec decodes the
    /// value under the key of the field, in place.
    pub open spec fn may_decode_field(
        &self,
        entries: Map<Seq<char>, Tree>,
        after: Map<Seq<char>, Tree>,
        out: Result<T, ErrorView>,
    ) -> bool {
        decodes_entry(self.codec(), entries, self.name(), after, out)
    }

    /// Whether the key and the relations of the field are `name`,
    /// `may_encode_field` and `may_decode_field`.
    pub open spec fn defined(&self) -> bool {
        &&& self.key() == self.name()
        &&& forall|record: S, out: EntryOutcome| #[trigger]
            self.encodes_field(record, out) <==> self.may_encode_field(record, out)
        &&& forall|
            entries: Map<Seq<char>, Tree>,
            after: Map<Seq<char>, Tree>,
            out: Result<T, ErrorView>,
        | #[trigger]
            self.decodes_field(entries, after, out) <==> self.may_decode_field(entries, after, out)
    }
}

impl<T, C, S, G, OT, O> Field<S, OT, O> for RecordField<T, C, S, G, OT, O> where
    C: Codec<T, OT, O>,
    G: Fn(&S) -> &T,
    O: CodecOps<OT>,
 {
    type Value = T;

    open spec fn key(&self) -> Seq<char> {
        self.name()
    }

    open spec fn encodes_field(&self, record: S, out: EntryOutcome) -> bool {
        self.may_encode_field(record, out)
    }

    open spec fn decodes_field(
        &self,
        entries: Map<Seq<char>, Tree>,
        after: Map<Seq<char>, Tree>,
        out: Result<T, ErrorView>,
    ) -> bool {
        self.may_decode_field(entries, after, out)
    }

    fn encode_field(&self, ops: &O, record: &S) -> (r: Option<DataResult<(String, OT)>>) {
        proof {
            use_type_invariant(self);
        }
        let value = (self.getter)(record);
        assert(gets(self.getter(), *record, *value));
        let written = self.codec.encode(ops, value);
        assert(self.codec().encodes(*value, encoded(ops, written)));
        match written {
            Ok(node) => Some(Ok((self.field_name.clone(), node))),
            Err(e) => Some(Err(e)),
        }
    }

    fn decode_field(&self, ops: &O, lens: &mut MapLensMut<'_, OT, O>) -> (r: DataResult<T>) {
        decode_entry(&self.codec, ops, lens, self.field_name.as_str())
    }
}

/// A slot that a record may leave empty: an empty slot writes no entry, and
/// a map without the slot's key reads as an empty slot.
#[verifier::reject_recursive_types(T)]
#[verifier::reject_recursive_types(S)]
pub struct OptionalField<T, C, S, G, OT, O> where
    C: Codec<T, OT, O>,
    G: Fn(&S) -> &Option<T>,
    O: CodecOps<OT>,
 {
    field_name: String,
    getter: G,
    codec: C,
    _phantom: PhantomData<(T, S, OT, O)>,
}

impl<T, C, S, G, OT, O> OptionalField<T, C, S, G, OT, O> where
    C: Codec<T, OT, O>,
    G: Fn(&S) -> &Option<T>,
    O: CodecOps<OT>,
 {
    #[verifier::type_invariant]
    spec fn getter_is_total(self) -> bool {
        forall|record: &S| call_requires(self.getter, (record,))
    }

    /// The key of the slot.
    pub closed spec fn name(&self) -> Seq<char> {
        self.field_name@
    }

    /// The function that takes the slot's value from a record.
    pub closed spec fn getter(&self) -> G {
        self.getter
    }

    /// The codec of the value of a filled slot.
    pub closed spec fn codec(&self) -> C {
        self.codec
    }

    /// The optional slot `name`, whose value `getter` takes from a record
    /// and `codec` handles. `getter` must accept every record.
    pub fn new(name: &str, getter: G, codec: C) -> (r: Self)
        requires
            forall|record: &S| call_requires(getter, (record,)),
        ensures
            r.name() == name@,
            r.getter() == getter,
            r.codec() == codec,
            r.defined(),
    {
        OptionalField { field_name: name.to_owned(), getter, codec, _phantom: PhantomData }
    }

    /// Whether preparing the entry for the slot's value `value` may end in
    /// `out`.
    pub open spec fn encodes_slot(&self, value: Option<T>, out: EntryOutcome) -> bool {
        match value {
            Some(inner) => exists|written: Result<Tree, ErrorView>|
                #[trigger] self.codec().encodes(inner, written) && out == keyed(
                    self.name(),
                    written,
                ),
            None => out is None,
        }
    }
}

impl<T, C, S, G, OT, O> OptionalField<T, C, S, G, OT, O> where
    C: Codec<T, OT, O>,
    G: Fn(&S) -> &Option<T>,
    O: CodecOps<OT>,
 {
    /// Whether preparing the entry of `record` may end in `out`: nothing for
    /// an empty slot, else what the codec makes of the value in the slot.
    pub open spec fn may_encode_field(&self, record: S, out: EntryOutcome) -> bool {
        exists|value: Option<T>|
            #[trigger] gets(self.getter(), record, value) && self.encodes_slot(value, out)
    }

    /// Whether reading the field may end in `out`: an empty slot where the
    /// key is missing, else what the codec decodes from the value under the
    /// key, in place.
    pub open spec fn may_decode_field(
        &self,
        entries: Map<Seq<char>, Tree>,
        after: Map<Seq<char>, Tree>,
        out: Result<Option<T>, ErrorView>,
    ) -> bool {
        if entries.contains_key(self.name()) {
            match out {
                Ok(Some(value)) => decodes_entry(
                    self.codec(),
                    entries,
                    self.name(),
                    after,
                    Ok(value),
                ),
                Ok(None) => false,
                Err(e) => decodes_entry(
                    self.codec(),
                    entries,
                    self.name(),
                    after,
                    Err::<T, ErrorView>(e),
                ),
            }
        } else {
            after == entries && out == Ok::<Option<T>, ErrorView>(None)
        }
    }

    /// Whether the key and the relations of the field are `name`,
    /// `may_encode_field` and `may_decode_field`.
    pub open spec fn defined(&self) -> bool {
        &&& self.key() == self.name()
        &&& forall|record: S, out: EntryOutcome| #[trigger]
            self.encodes_field(record, out) <==> self.may_encode_field(record, out)
        &&& forall|
            entries: Map<Seq<char>, Tree>,
            after: Map<Seq<char>, Tree>,
            out: Result<Option<T>, ErrorView>,
        | #[trigger]
            self.decodes_field(entries, after, out) <==> self.may_decode_field(entries, after, out)
    }
}

impl<T, C, S, G, OT, O> Field<S, OT, O> for OptionalField<T, C, S, G, OT, O> where
    C: Codec<T, OT, O>,
    G: Fn(&S) -> &Option<T>,
    O: CodecOps<OT>,
 {
    type Value = Option<T>;

    open spec fn key(&self) -> Seq<char> {
        self.name()
    }

    open spec fn encodes_field(&self, record: S, out: EntryOutcome) -> bool {
        self.may_encode_field(record, out)
    }

    open spec fn decodes_field(
        &self,
        entries: Map<Seq<char>, Tree>,
        after: Map<Seq<char>, Tree>,
        out: Result<Option<T>, ErrorView>,
    ) -> bool {
        self.may_decode_field(entries, after, out)
    }

    fn encode_field(&self, ops: &O, record: &S) -> (r: Option<DataResult<(String, OT)>>) {
        proof {
            use_type_invariant(self);
        }
        let value = (self.getter)(record);
        assert(gets(self.getter(), *record, *value));
        match value {
            Some(inner) => {
                let written = self.codec.encode(ops, inner);
                assert(self.codec().encodes(*inner, encoded(ops, written)));
                match written {
                    Ok(node) => Some(Ok((self.field_name.clone(), node))),
                    Err(e) => Some(Err(e)),
                }
            },
            None => None,
        }
    }

    fn decode_field(&self, ops: &O, lens: &mut MapLensMut<'_, OT, O>) -> (r: DataResult<
        Option<T>,
    >) {
        if has_key(lens, self.field_name.as_str()) {
            match decode_entry(&self.codec, ops, lens, self.field_name.as_str()) {
                Ok(value) => Ok(Some(value)),
                Err(e) => Err(e),
            }
        } else {
            Ok(None)
        }
    }
}

/// Whether the map behind `lens` has an entry under `key`.
pub fn has_key<OT, O: CodecOps<OT>>(lens: &MapLensMut<'_, OT, O>, key: &str) -> (r: bool)
    requires
        lens.wf(),
    ensures
        r == lens.entries().contains_key(key@),
{
    match lens.get(key) {
        Ok(_) => true,
        Err(_) => false,
    }
}

} // verus!
