//! The builder of record codecs: any number of named fields, then a
//! constructor that assembles the record from the decoded values.

use crate::result::{DataResult, ErrorView, Shape};
use crate::serialization::builtins::records::Field;
use crate::serialization::ops::{entry_model, entry_models, mismatch, CodecOps};
use crate::serialization::views::{CodecViews, MapLensMut, MapView};
use crate::serialization::{decoded, Codec};
use crate::tree::{map_of_entries, EntryOutcome, Tree};
use std::marker::PhantomData;
use vstd::prelude::*;

verus! {

/// An ordered list of the fields of a record of type `S`.
pub trait FieldList<S, OT, O: CodecOps<OT>> {
    /// The decoded values of the fields, in declared order: `()` for no
    /// field, and `(values of the fields before, value of the last field)`
    /// otherwise.
    type Values;

    /// Whether preparing the entries of `record`, one for each field in
    /// order, may end in `outcomes`.
    spec fn encodes_fields(&self, record: S, outcomes: Seq<EntryOutcome>) -> bool;

    /// Whether reading the fields in order from a map with the entries
    /// `entries` may end in `out`, leaving the entries `after`. Reading
    /// stops at the first field that fails.
    spec fn decodes_fields(
        &self,
        entries: Map<Seq<char>, Tree>,
        after: Map<Seq<char>, Tree>,
        out: Result<Self::Values, ErrorView>,
    ) -> bool;

    /// Prepares the entries of `record`, one for each field in order.
    fn encode_fields(&self, ops: &O, record: &S) -> (r: Vec<Option<DataResult<(String, OT)>>>)
        ensures
            self.encodes_fields(*record, entry_models(|n: OT| ops.tree(n), r@)),
    ;

    /// Reads the fields in order from the map behind `lens`.
    fn decode_fields(&self, ops: &O, lens: &mut MapLensMut<'_, OT, O>) -> (r: DataResult<
        Self::Values,
    >)
        requires
            old(lens).wf(),
            old(lens).ops() == ops,
        ensures
            final(lens).wf(),
            final(lens).ops() == ops,
            *final(final(lens).slot()) == *final(old(lens).slot()),
            self.decodes_fields(old(lens).entries(), final(lens).entries(), decoded(r)),
    ;
}

/// The empty list of fields.
pub struct NoFields;

impl<S, OT, O: CodecOps<OT>> FieldList<S, OT, O> for NoFields {
    type Values = ();

    open spec fn encodes_fields(&self, record: S, outcomes: Seq<EntryOutcome>) -> bool {
        outcomes.len() == 0
    }

    open spec fn decodes_fields(
        &self,
        entries: Map<Seq<char>, Tree>,
        after: Map<Seq<char>, Tree>,
        out: Result<(), ErrorView>,
    ) -> bool {
        after == entries && out == Ok::<(), ErrorView>(())
    }

    fn encode_fields(&self, ops: &O, record: &S) -> (r: Vec<Option<DataResult<(String, OT)>>>) {
        Vec::new()
    }

    fn decode_fields(&self, ops: &O, lens: &mut MapLensMut<'_, OT, O>) -> (r: DataResult<()>) {
        Ok(())
    }
}

/// A list of fields with one more field at its end.
pub struct Fields<Prev, F> {
    prev: Prev,
    last: F,
}

impl<Prev, F> Fields<Prev, F> {
    /// The fields before the last one.
    pub closed spec fn prev(&self) -> Prev {
        self.prev
    }

    /// The last field.
    pub closed spec fn last(&self) -> F {
        self.last
    }

    /// The list `prev` with `last` added at its end.
    pub fn new(prev: Prev, last: F) -> (r: Self)
        ensures
            r.prev() == prev,
            r.last() == last,
    {
        Fields { prev, last }
    }
}

/// Whether reading the last field `last` may end in `out` once the fields
/// before it have been read as `values`, leaving the entries `entries`.
pub open spec fn decodes_last<S, OT, O: CodecOps<OT>, V, F: Field<S, OT, O, Value = W>, W>(
    last: F,
    entries: Map<Seq<char>, Tree>,
    values: V,
    after: Map<Seq<char>, Tree>,
    out: Result<(V, W), ErrorView>,
) -> bool {
    exists|found: Result<W, ErrorView>|
        #[trigger] last.decodes_field(entries, after, found) && match found {
            Ok(value) => out == Ok::<(V, W), ErrorView>((values, value)),
            Err(e) => out == Err::<(V, W), ErrorView>(e),
        }
}

/// Whether preparing the entries of `record` for the fields `fields` may end
/// in `outcomes`: the entries of the fields before the last one, then that
/// of the last.
pub open spec fn may_encode_fields<S, OT, O, Prev, F>(
    fields: Fields<Prev, F>,
    record: S,
    outcomes: Seq<EntryOutcome>,
) -> bool where O: CodecOps<OT>, Prev: FieldList<S, OT, O>, F: Field<S, OT, O> {
    &&& outcomes.len() > 0
    &&& fields.prev().encodes_fields(record, outcomes.drop_last())
    &&& fields.last().encodes_field(record, outcomes.last())
}

/// Whether reading the fields `fields` may end in `out`: the fields before
/// the last one are read, then the last; the first failure ends the reading.
pub open spec fn may_decode_fields<S, OT, O, Prev, F, V, W>(
    fields: Fields<Prev, F>,
    entries: Map<Seq<char>, Tree>,
    after: Map<Seq<char>, Tree>,
    out: Result<(V, W), ErrorView>,
) -> bool where
    O: CodecOps<OT>,
    Prev: FieldList<S, OT, O, Values = V>,
    F: Field<S, OT, O, Value = W>,
 {
    exists|middle: Map<Seq<char>, Tree>, found: Result<V, ErrorView>|
        #[trigger] fields.prev().decodes_fields(entries, middle, found) && match found {
            Ok(values) => decodes_last::<S, OT, O, V, F, W>(
                fields.last(),
                middle,
                values,
                after,
                out,
            ),
            Err(e) => after == middle && out == Err::<(V, W), ErrorView>(e),
        }
}

/// Whether the relations of the list `fields` are `may_encode_fields` and
/// `may_decode_fields`.
pub open spec fn fields_defined<S, OT, O, Prev, F, V, W>(fields: Fields<Prev, F>) -> bool where
    O: CodecOps<OT>,
    Prev: FieldList<S, OT, O, Values = V>,
    F: Field<S, OT, O, Value = W>,
 {
    &&& forall|record: S, outcomes: Seq<EntryOutcome>| #[trigger]
        fields.encodes_fields(record, outcomes) <==> may_encode_fields::<S, OT, O, Prev, F>(
            fields,
            record,
            outcomes,
        )
    &&& forall|
        entries: Map<Seq<char>, Tree>,
        after: Map<Seq<char>, Tree>,
        out: Result<(V, W), ErrorView>,
    | #[trigger]
        fields.decodes_fields(entries, after, out) <==> may_decode_fields::<S, OT, O, Prev, F, V, W>(
            fields,
            entries,
            after,
            out,
        )
}

/// The relations of a list of fields are `may_encode_fields` and
/// `may_decode_fields`.
pub proof fn lemma_fields_defined<S, OT, O, Prev, F, V, W>(fields: Fields<Prev, F>) where
    O: CodecOps<OT>,
    Prev: FieldList<S, OT, O, Values = V>,
    F: Field<S, OT, O, Value = W>,

    ensures
        fields_defined::<S, OT, O, Prev, F, V, W>(fields),
{
}

impl<S, OT, O: CodecOps<OT>, Prev: FieldList<S, OT, O>, F: Field<S, OT, O>> FieldList<
    S,
    OT,
    O,
> for Fields<Prev, F> {
    type Values = (Prev::Values, F::Value);

    open spec fn encodes_fields(&self, record: S, outcomes: Seq<EntryOutcome>) -> bool {
        may_encode_fields::<S, OT, O, Prev, F>(*self, record, outcomes)
    }

    open spec fn decodes_fields(
        &self,
        entries: Map<Seq<char>, Tree>,
        after: Map<Seq<char>, Tree>,
        out: Result<(Prev::Values, F::Value), ErrorView>,
    ) -> bool {
        may_decode_fields::<S, OT, O, Prev, F, Prev::Values, F::Value>(*self, entries, after, out)
    }

    fn encode_fields(&self, ops: &O, record: &S) -> (r: Vec<Option<DataResult<(String, OT)>>>) {
        let mut entries = self.prev.encode_fields(ops, record);
        let ghost before = entry_models(|n: OT| ops.tree(n), entries@);
        let entry = self.last.encode_field(ops, record);
        let ghost outcome = entry_model(|n: OT| ops.tree(n), entry);
        entries.push(entry);
        proof {
            let outcomes = entry_models(|n: OT| ops.tree(n), entries@);
            assert(outcomes.drop_last() =~= before);
            assert(outcomes.last() == outcome);
        }
        entries
    }

    fn decode_fields(&self, ops: &O, lens: &mut MapLensMut<'_, OT, O>) -> (r: DataResult<
        (Prev::Values, F::Value),
    >) {
        let ghost entries = lens.entries();
        let found = self.prev.decode_fields(ops, lens);
        let ghost middle = lens.entries();
        assert(self.prev().decodes_fields(entries, middle, decoded(found)));
        match found {
            Ok(values) => {
                let last = self.last.decode_field(ops, lens);
                assert(self.last().decodes_field(middle, lens.entries(), decoded(last)));
                match last {
                    Ok(value) => Ok((values, value)),
                    Err(e) => Err(e),
                }
            },
            Err(e) => Err(e),
        }
    }
}

/// Whether the function `f` may assemble `record` from `values`.
pub open spec fn assembles<V, S, K: Fn(V) -> S>(f: K, values: V, record: S) -> bool {
    call_ensures(f, (values,), record)
}

/// The tree of a record whose entries were prepared as `outcomes`, or the
/// first failure among them.
pub open spec fn record_tree(outcomes: Seq<EntryOutcome>) -> Result<Tree, ErrorView> {
    match map_of_entries(outcomes) {
        Ok(entries) => Ok(Tree::Mapping(entries)),
        Err(e) => Err(e),
    }
}

/// The codec of a record of type `S`: a map node with one entry for each
/// field that is present. Keys that no field names are left alone.
#[verifier::reject_recursive_types(S)]
#[verifier::reject_recursive_types(OT)]
#[verifier::reject_recursive_types(O)]
#[verifier::reject_recursive_types(L)]
#[verifier::reject_recursive_types(V)]
pub struct RecordCodec<S, V, L, K, OT, O> where
    O: CodecOps<OT>,
    L: FieldList<S, OT, O, Values = V>,
    K: Fn(V) -> S,
 {
    fields: L,
    constructor: K,
    _phantom: PhantomData<(S, V, OT, O)>,
}

impl<S, V, L, K, OT, O> RecordCodec<S, V, L, K, OT, O> where
    O: CodecOps<OT>,
    L: FieldList<S, OT, O, Values = V>,
    K: Fn(V) -> S,
 {
    #[verifier::type_invariant]
    spec fn constructor_is_total(self) -> bool {
        forall|values: V| call_requires(self.constructor, (values,))
    }

    /// The fields of the record, in declared order.
    pub closed spec fn fields(&self) -> L {
        self.fields
    }

    /// The function that assembles a record from the decoded values.
    pub closed spec fn constructor(&self) -> K {
        self.constructor
    }

    /// The codec of the records with the fields `fields` that `constructor`
    /// assembles. `constructor` must accept every tuple of values.
    pub fn new(fields: L, constructor: K) -> (r: Self)
        requires
            forall|values: V| call_requires(constructor, (values,)),
        ensures
            r.fields() == fields,
            r.constructor() == constructor,
            r.defined(),
    {
        RecordCodec { fields, constructor, _phantom: PhantomData }
    }

    /// What decoding a map with the entries `entries` may give.
    pub open spec fn decodes_entries(
        &self,
        entries: Map<Seq<char>, Tree>,
        after: Tree,
        out: Result<S, ErrorView>,
    ) -> bool {
        exists|last: Map<Seq<char>, Tree>, found: Result<V, ErrorView>|
            #[trigger] self.fields().decodes_fields(entries, last, found) && after == Tree::Mapping(
                last,
            ) && match found {
                Ok(values) => out matches Ok(record) && assembles(
                    self.constructor(),
                    values,
                    record,
                ),
                Err(e) => out == Err::<S, ErrorView>(e),
            }
    }
}

impl<S, V, L, K, OT, O> RecordCodec<S, V, L, K, OT, O> where
    O: CodecOps<OT>,
    L: FieldList<S, OT, O, Values = V>,
    K: Fn(V) -> S,
 {
    /// Whether encoding `value` may end in `out`: the map of the entries
    /// that the fields prepared, or the first failure among them.
    pub open spec fn may_encode(&self, value: S, out: Result<Tree, ErrorView>) -> bool {
        exists|outcomes: Seq<EntryOutcome>|
            #[trigger] self.fields().encodes_fields(value, outcomes) && out == record_tree(outcomes)
    }

    /// Whether decoding may end in `out`: the fields are read in order from
    /// a map node, and the constructor assembles what they gave; what is not
    /// a map is rejected.
    pub open spec fn may_decode(&self, before: Tree, after: Tree, out: Result<S, ErrorView>) -> bool {
        match before {
            Tree::Mapping(entries) => self.decodes_entries(entries, after, out),
            other => after == before && out == Err::<S, ErrorView>(mismatch(Shape::Mapping, other)),
        }
    }

    /// Whether the relations of the codec are `may_encode` and `may_decode`.
    pub open spec fn defined(&self) -> bool {
        &&& forall|value: S, out: Result<Tree, ErrorView>| #[trigger]
            self.encodes(value, out) <==> self.may_encode(value, out)
        &&& forall|before: Tree, after: Tree, out: Result<S, ErrorView>| #[trigger]
            self.decodes(before, after, out) <==> self.may_decode(before, after, out)
    }
}

impl<S, V, L, K, OT, O> Codec<S, OT, O> for RecordCodec<S, V, L, K, OT, O> where
    O: CodecOps<OT>,
    L: FieldList<S, OT, O, Values = V>,
    K: Fn(V) -> S,
 {
    open spec fn encodes(&self, value: S, out: Result<Tree, ErrorView>) -> bool {
        self.may_encode(value, out)
    }

    open spec fn decodes(&self, before: Tree, after: Tree, out: Result<S, ErrorView>) -> bool {
        self.may_decode(before, after, out)
    }

    fn encode(&self, ops: &O, value: &S) -> (r: DataResult<OT>) {
        let entries = self.fields.encode_fields(ops, value);
        assert(self.fields().encodes_fields(*value, entry_models(|n: OT| ops.tree(n), entries@)));
        ops.create_map_special(entries)
    }

    fn decode(&self, ops: &O, value: &mut OT) -> (r: DataResult<S>) {
        proof {
            use_type_invariant(self);
        }
        let mut lens = match ops.get_map_mut(value) {
            Ok(lens) => lens,
            Err(e) => {
                return Err(e);
            },
        };
        let ghost entries = lens.entries();
        let found = self.fields.decode_fields(ops, &mut lens);
        let ghost seen = decoded(found);
        proof {
            lens.lemma_settled();
            assert(ops.tree(*value) == Tree::Mapping(lens.entries()));
            assert(self.fields().decodes_fields(entries, lens.entries(), seen));
        }
        match found {
            Ok(values) => {
                let record = (self.constructor)(values);
                assert(assembles(self.constructor(), values, record));
                Ok(record)
            },
            Err(e) => Err(e),
        }
    }
}

/// Collects the fields of a record one by one, then builds its codec.
pub struct MapCodecBuilder<L> {
    fields: L,
}

impl MapCodecBuilder<NoFields> {
    /// A builder with no field yet.
    pub fn new() -> (r: Self)
        ensures
            r.fields() == NoFields,
    {
        MapCodecBuilder { fields: NoFields }
    }
}

impl<L> MapCodecBuilder<L> {
    /// The fields collected so far, in declared order.
    pub closed spec fn fields(&self) -> L {
        self.fields
    }

    /// The builder with `field` added after the fields collected so far.
    pub fn field<F>(self, field: F) -> (r: MapCodecBuilder<Fields<L, F>>)
        ensures
            r.fields().prev() == self.fields(),
            r.fields().last() == field,
    {
        MapCodecBuilder { fields: Fields::new(self.fields, field) }
    }

    /// The codec of the records that have the collected fields and that
    /// `constructor` assembles from the decoded values, taken in declared
    /// order. `constructor` must accept every tuple of values.
    pub fn build<S, V, K, OT, O>(self, constructor: K) -> (r: RecordCodec<S, V, L, K, OT, O>) where
        O: CodecOps<OT>,
        L: FieldList<S, OT, O, Values = V>,
        K: Fn(V) -> S,

        requires
            forall|values: V| call_requires(constructor, (values,)),
        ensures
            r.fields() == self.fields(),
            r.constructor() == constructor,
            r.defined(),
    {
        RecordCodec::new(self.fields, constructor)
    }
}

} // verus!
