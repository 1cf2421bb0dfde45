//! The round-trip law of record codecs: decoding the map that a record was
//! encoded to gives the record back, whatever other keys the map has gained.

use crate::result::ErrorView;
use crate::serialization::builtins::record_builder::{
    assembles, decodes_last, lemma_fields_defined, record_tree, FieldList, Fields,
    NoFields, RecordCodec,
};
use crate::serialization::builtins::records::{gets, keyed, Field, OptionalField, RecordField};
use crate::serialization::laws::{returns_same, RoundTrip};
use crate::serialization::ops::CodecOps;
use crate::serialization::Codec;
use crate::tree::{map_of_entries, EntryOutcome, Tree};
use vstd::prelude::*;

verus! {

/// Whether the map `entries` has, under each key of `keys`, what the map
/// `encoded` has under it, and nothing where `encoded` has nothing.
pub open spec fn agrees(
    entries: Map<Seq<char>, Tree>,
    encoded: Map<Seq<char>, Tree>,
    keys: Set<Seq<char>>,
) -> bool {
    forall|k: Seq<char>| #[trigger]
        keys.contains(k) ==> entries.contains_key(k) == encoded.contains_key(k) && (
        encoded.contains_key(k) ==> entries[k] == encoded[k])
}

/// Whether the map `after` is the map `entries` at every key outside `keys`.
pub open spec fn same_outside(
    after: Map<Seq<char>, Tree>,
    entries: Map<Seq<char>, Tree>,
    keys: Set<Seq<char>>,
) -> bool {
    forall|k: Seq<char>|
        !keys.contains(k) ==> #[trigger] after.contains_key(k) == entries.contains_key(k) && (
        entries.contains_key(k) ==> after[k] == entries[k])
}

/// Whether the map `entries` has the entry that `outcome` prepared under
/// `key`, or no entry under `key` where `outcome` left the entry out.
pub open spec fn holds_entry(
    entries: Map<Seq<char>, Tree>,
    key: Seq<char>,
    outcome: EntryOutcome,
) -> bool {
    match outcome {
        None => !entries.contains_key(key),
        Some(Ok(pair)) => entries.contains_key(key) && entries[key] == pair.1,
        Some(Err(_)) => false,
    }
}

/// A field with a round-trip law: reading the field from a map that holds
/// the entry prepared for a record gives the content of the record's slot.
pub trait FieldRoundTrip<S, OT, O: CodecOps<OT>>: Field<S, OT, O> + Sized {
    /// The records that the law speaks of.
    spec fn valid(&self, record: S) -> bool;

    /// Whether `value` reads as the content of the slot of `record` does.
    spec fn holds(&self, record: S, value: Self::Value) -> bool;

    /// Whether the slot of `record` is filled, so that an entry is written
    /// for it.
    spec fn writes(&self, record: S) -> bool;

    /// Preparing the entry of a valid record does not fail; an entry is
    /// written exactly where the slot is filled, and under the key of the
    /// field.
    proof fn lemma_entry(&self, record: S, outcome: EntryOutcome)
        requires
            self.valid(record),
            self.encodes_field(record, outcome),
        ensures
            match outcome {
                None => !self.writes(record),
                Some(Ok(pair)) => pair.0 == self.key() && self.writes(record),
                Some(Err(_)) => false,
            },
    ;

    /// Reading the field from a map that holds the prepared entry gives the
    /// content of the slot, and changes the map under the key of the field
    /// at most.
    proof fn lemma_read_back(
        &self,
        record: S,
        outcome: EntryOutcome,
        entries: Map<Seq<char>, Tree>,
        after: Map<Seq<char>, Tree>,
        out: Result<Self::Value, ErrorView>,
    )
        requires
            self.valid(record),
            self.encodes_field(record, outcome),
            holds_entry(entries, self.key(), outcome),
            self.decodes_field(entries, after, out),
        ensures
            out matches Ok(value) && self.holds(record, value),
            same_outside(after, entries, set![self.key()]),
    ;
}

impl<T, C, S, G, OT, O> FieldRoundTrip<S, OT, O> for RecordField<T, C, S, G, OT, O> where
    T: DeepView,
    C: RoundTrip<T, OT, O>,
    G: Fn(&S) -> &T,
    O: CodecOps<OT>,
 {
    /// The records of which the getter hands out one value, as far as
    /// reading goes, and a valid one.
    open spec fn valid(&self, record: S) -> bool {
        &&& forall|value: T| #[trigger] gets(self.getter(), record, value) ==> self.codec().valid(value)
        &&& forall|value: T, other: T|
            #[trigger] gets(self.getter(), record, value) && #[trigger] gets(
                self.getter(),
                record,
                other,
            ) ==> value.deep_view() == other.deep_view()
    }

    open spec fn holds(&self, record: S, value: T) -> bool {
        forall|got: T| #[trigger]
            gets(self.getter(), record, got) ==> value.deep_view() == got.deep_view()
    }

    open spec fn writes(&self, record: S) -> bool {
        true
    }

    proof fn lemma_entry(&self, record: S, outcome: EntryOutcome) {
        let (value, written) = choose|value: T, written: Result<Tree, ErrorView>| #[trigger]
            gets(self.getter(), record, value) && #[trigger] self.codec().encodes(value, written)
                && outcome == keyed(self.name(), written);
        self.codec().lemma_encode_succeeds(value, written);
    }

    proof fn lemma_read_back(
        &self,
        record: S,
        outcome: EntryOutcome,
        entries: Map<Seq<char>, Tree>,
        after: Map<Seq<char>, Tree>,
        out: Result<T, ErrorView>,
    ) {
        let (value, written) = choose|value: T, written: Result<Tree, ErrorView>| #[trigger]
            gets(self.getter(), record, value) && #[trigger] self.codec().encodes(value, written)
                && outcome == keyed(self.name(), written);
        self.codec().lemma_encode_succeeds(value, written);
        let tree = written->Ok_0;
        let child = choose|child: Tree| #[trigger]
            self.codec().decodes(entries[self.name()], child, out) && after == entries.insert(
                self.name(),
                child,
            );
        self.codec().lemma_decode_returns(value, tree, child, out);
    }
}

impl<T, C, S, G, OT, O> FieldRoundTrip<S, OT, O> for OptionalField<T, C, S, G, OT, O> where
    T: DeepView,
    C: RoundTrip<T, OT, O>,
    G: Fn(&S) -> &Option<T>,
    O: CodecOps<OT>,
 {
    /// The records of which the getter hands out one content of the slot,
    /// as far as reading goes, and if a value, a valid one.
    open spec fn valid(&self, record: S) -> bool {
        &&& forall|value: T| #[trigger]
            gets(self.getter(), record, Some(value)) ==> self.codec().valid(value)
        &&& forall|slot: Option<T>, other: Option<T>|
            #[trigger] gets(self.getter(), record, slot) && #[trigger] gets(
                self.getter(),
                record,
                other,
            ) ==> slot.deep_view() == other.deep_view()
    }

    open spec fn holds(&self, record: S, value: Option<T>) -> bool {
        forall|got: Option<T>| #[trigger]
            gets(self.getter(), record, got) ==> value.deep_view() == got.deep_view()
    }

    /// Whether the getter hands out a value, not an empty slot.
    open spec fn writes(&self, record: S) -> bool {
        exists|value: T| #[trigger] gets(self.getter(), record, Some(value))
    }

    proof fn lemma_entry(&self, record: S, outcome: EntryOutcome) {
        let slot = choose|slot: Option<T>| #[trigger]
            gets(self.getter(), record, slot) && self.encodes_slot(slot, outcome);
        match slot {
            Some(value) => {
                let written = choose|written: Result<Tree, ErrorView>| #[trigger]
                    self.codec().encodes(value, written) && outcome == keyed(
                        self.name(),
                        written,
                    );
                self.codec().lemma_encode_succeeds(value, written);
            },
            None => {
                if self.writes(record) {
                    let value = choose|value: T| #[trigger]
                        gets(self.getter(), record, Some(value));
                    assert(slot.deep_view() == Some(value).deep_view());
                }
            },
        }
    }

    proof fn lemma_read_back(
        &self,
        record: S,
        outcome: EntryOutcome,
        entries: Map<Seq<char>, Tree>,
        after: Map<Seq<char>, Tree>,
        out: Result<Option<T>, ErrorView>,
    ) {
        let slot = choose|slot: Option<T>| #[trigger]
            gets(self.getter(), record, slot) && self.encodes_slot(slot, outcome);
        match slot {
            Some(value) => {
                let written = choose|written: Result<Tree, ErrorView>| #[trigger]
                    self.codec().encodes(value, written) && outcome == keyed(
                        self.name(),
                        written,
                    );
                self.codec().lemma_encode_succeeds(value, written);
                let tree = written->Ok_0;
                assert(entries.contains_key(self.name()));
                match out {
                    Ok(Some(back)) => {
                        let child = choose|child: Tree| #[trigger]
                            self.codec().decodes(entries[self.name()], child, Ok(back)) && after
                                == entries.insert(self.name(), child);
                        self.codec().lemma_decode_returns(value, tree, child, Ok(back));
                        assert(out->Ok_0.deep_view() == slot.deep_view());
                    },
                    Ok(None) => {},
                    Err(e) => {
                        let child = choose|child: Tree| #[trigger]
                            self.codec().decodes(entries[self.name()], child, Err(e)) && after
                                == entries.insert(self.name(), child);
                        self.codec().lemma_decode_returns(value, tree, child, Err(e));
                    },
                }
            },
            None => {
                assert(out->Ok_0.deep_view() == slot.deep_view());
            },
        }
    }
}

/// A list of fields with a round-trip law: reading the fields from a map
/// that holds the entries prepared for a record gives the contents of the
/// record's slots.
pub trait FieldsRoundTrip<S, OT, O: CodecOps<OT>>: FieldList<S, OT, O> + Sized {
    /// The records that the law speaks of.
    spec fn valid(&self, record: S) -> bool;

    /// The keys of the fields.
    spec fn keys(&self) -> Set<Seq<char>>;

    /// Whether `values` read as the contents of the slots of `record` do.
    spec fn holds(&self, record: S, values: Self::Values) -> bool;

    /// The keys of the fields whose slots `record` fills.
    spec fn written(&self, record: S) -> Set<Seq<char>>;

    /// Preparing the entries of a valid record does not fail, and the keys
    /// of the entries are the keys of the fields whose slots are filled: an
    /// empty slot leaves no entry at all.
    proof fn lemma_entries(&self, record: S, outcomes: Seq<EntryOutcome>)
        requires
            self.valid(record),
            self.encodes_fields(record, outcomes),
        ensures
            map_of_entries(outcomes) matches Ok(encoded) && encoded.dom() == self.written(record),
            forall|k: Seq<char>| #[trigger]
                self.written(record).contains(k) ==> self.keys().contains(k),
    ;

    /// Reading the fields from a map that holds the prepared entries gives
    /// the contents of the slots, and changes the map under the keys of the
    /// fields at most.
    proof fn lemma_read_back(
        &self,
        record: S,
        outcomes: Seq<EntryOutcome>,
        entries: Map<Seq<char>, Tree>,
        after: Map<Seq<char>, Tree>,
        out: Result<Self::Values, ErrorView>,
    )
        requires
            self.valid(record),
            self.encodes_fields(record, outcomes),
            map_of_entries(outcomes) matches Ok(encoded) && agrees(entries, encoded, self.keys()),
            self.decodes_fields(entries, after, out),
        ensures
            out matches Ok(values) && self.holds(record, values),
            same_outside(after, entries, self.keys()),
    ;
}

impl<S, OT, O: CodecOps<OT>> FieldsRoundTrip<S, OT, O> for NoFields {
    open spec fn valid(&self, record: S) -> bool {
        true
    }

    open spec fn keys(&self) -> Set<Seq<char>> {
        Set::empty()
    }

    open spec fn holds(&self, record: S, values: ()) -> bool {
        true
    }

    open spec fn written(&self, record: S) -> Set<Seq<char>> {
        Set::empty()
    }

    proof fn lemma_entries(&self, record: S, outcomes: Seq<EntryOutcome>) {
        assert(map_of_entries(outcomes)->Ok_0.dom() =~= Set::<Seq<char>>::empty());
    }

    proof fn lemma_read_back(
        &self,
        record: S,
        outcomes: Seq<EntryOutcome>,
        entries: Map<Seq<char>, Tree>,
        after: Map<Seq<char>, Tree>,
        out: Result<(), ErrorView>,
    ) {
    }
}

impl<S, OT, O, Prev, F> FieldsRoundTrip<S, OT, O> for Fields<Prev, F> where
    O: CodecOps<OT>,
    Prev: FieldsRoundTrip<S, OT, O>,
    F: FieldRoundTrip<S, OT, O>,
 {
    /// The records valid for every field; the key of the last field must
    /// not be the key of a field before it.
    open spec fn valid(&self, record: S) -> bool {
        &&& self.prev().valid(record)
        &&& self.last().valid(record)
        &&& !self.prev().keys().contains(self.last().key())
    }

    open spec fn keys(&self) -> Set<Seq<char>> {
        self.prev().keys().insert(self.last().key())
    }

    open spec fn holds(&self, record: S, values: (Prev::Values, F::Value)) -> bool {
        self.prev().holds(record, values.0) && self.last().holds(record, values.1)
    }

    open spec fn written(&self, record: S) -> Set<Seq<char>> {
        if self.last().writes(record) {
            self.prev().written(record).insert(self.last().key())
        } else {
            self.prev().written(record)
        }
    }

    proof fn lemma_entries(&self, record: S, outcomes: Seq<EntryOutcome>) {
        lemma_fields_defined::<S, OT, O, Prev, F, Prev::Values, F::Value>(*self);
        self.prev().lemma_entries(record, outcomes.drop_last());
        self.last().lemma_entry(record, outcomes.last());
        let before = map_of_entries(outcomes.drop_last())->Ok_0;
        let encoded = map_of_entries(outcomes)->Ok_0;
        assert(encoded.dom() =~= self.written(record));
    }

    proof fn lemma_read_back(
        &self,
        record: S,
        outcomes: Seq<EntryOutcome>,
        entries: Map<Seq<char>, Tree>,
        after: Map<Seq<char>, Tree>,
        out: Result<(Prev::Values, F::Value), ErrorView>,
    ) {
        lemma_fields_defined::<S, OT, O, Prev, F, Prev::Values, F::Value>(*self);
        let key = self.last().key();
        let front = outcomes.drop_last();
        let outcome = outcomes.last();
        self.prev().lemma_entries(record, front);
        self.last().lemma_entry(record, outcome);
        let before = map_of_entries(front)->Ok_0;
        let encoded = map_of_entries(outcomes)->Ok_0;
        assert(!before.contains_key(key)) by {
            if before.contains_key(key) {
                assert(self.prev().written(record).contains(key));
            }
        }
        assert(agrees(entries, before, self.prev().keys())) by {
            assert forall|k: Seq<char>| #[trigger] self.prev().keys().contains(k) implies (
            entries.contains_key(k) == before.contains_key(k) && (before.contains_key(k)
                ==> entries[k] == before[k])) by {
                assert(self.keys().contains(k));
                assert(k != key);
            }
        }
        let (middle, found) = choose|
            middle: Map<Seq<char>, Tree>,
            found: Result<Prev::Values, ErrorView>,
        | #[trigger]
            self.prev().decodes_fields(entries, middle, found) && match found {
                Ok(values) => decodes_last::<S, OT, O, Prev::Values, F, F::Value>(
                    self.last(),
                    middle,
                    values,
                    after,
                    out,
                ),
                Err(e) => after == middle && out == Err::<(Prev::Values, F::Value), ErrorView>(e),
            };
        self.prev().lemma_read_back(record, front, entries, middle, found);
        let values = found->Ok_0;
        assert(self.keys().contains(key));
        assert(middle.contains_key(key) == entries.contains_key(key));
        assert(holds_entry(middle, key, outcome));
        let last = choose|last: Result<F::Value, ErrorView>| #[trigger]
            self.last().decodes_field(middle, after, last) && match last {
                Ok(value) => out == Ok::<(Prev::Values, F::Value), ErrorView>((values, value)),
                Err(e) => out == Err::<(Prev::Values, F::Value), ErrorView>(e),
            };
        self.last().lemma_read_back(record, outcome, middle, after, last);
        assert(same_outside(after, entries, self.keys())) by {
            assert forall|k: Seq<char>| !self.keys().contains(k) implies (#[trigger] after.contains_key(
                k,
            ) == entries.contains_key(k) && (entries.contains_key(k) ==> after[k]
                == entries[k])) by {
                assert(!set![key].contains(k));
                assert(!self.prev().keys().contains(k));
                assert(after.contains_key(k) == middle.contains_key(k));
                assert(middle.contains_key(k) == entries.contains_key(k));
            }
        }
    }
}

impl<S, V, L, K, OT, O> RoundTrip<S, OT, O> for RecordCodec<S, V, L, K, OT, O> where
    S: DeepView,
    O: CodecOps<OT>,
    L: FieldsRoundTrip<S, OT, O> + FieldList<S, OT, O, Values = V>,
    K: Fn(V) -> S,
 {
    /// The records valid for the fields that the constructor gives back
    /// when it is handed the contents of their slots.
    open spec fn valid(&self, value: S) -> bool {
        &&& self.fields().valid(value)
        &&& forall|values: V, made: S|
            self.fields().holds(value, values) && #[trigger] assembles(
                self.constructor(),
                values,
                made,
            ) ==> made.deep_view() == value.deep_view()
    }

    proof fn lemma_encode_succeeds(&self, value: S, out: Result<Tree, ErrorView>) {
        let outcomes = choose|outcomes: Seq<EntryOutcome>| #[trigger]
            self.fields().encodes_fields(value, outcomes) && out == record_tree(outcomes);
        self.fields().lemma_entries(value, outcomes);
    }

    proof fn lemma_decode_returns(
        &self,
        value: S,
        tree: Tree,
        after: Tree,
        out: Result<S, ErrorView>,
    ) {
        lemma_extra_keys_are_ignored(*self, value, tree, tree.entries(), after, out);
    }
}

/// Keys that no field names do not disturb decoding: a map that has, under
/// the keys of the fields, what encoding a valid record gave, decodes to
/// the record whatever else it holds, and what else it holds stays.
pub proof fn lemma_extra_keys_are_ignored<S, V, L, K, OT, O>(
    codec: RecordCodec<S, V, L, K, OT, O>,
    value: S,
    tree: Tree,
    entries: Map<Seq<char>, Tree>,
    after: Tree,
    out: Result<S, ErrorView>,
) where
    S: DeepView,
    O: CodecOps<OT>,
    L: FieldsRoundTrip<S, OT, O> + FieldList<S, OT, O, Values = V>,
    K: Fn(V) -> S,

    requires
        codec.valid(value),
        codec.encodes(value, Ok(tree)),
        agrees(entries, tree.entries(), codec.fields().keys()),
        codec.decodes(Tree::Mapping(entries), after, out),
    ensures
        returns_same(out, value),
        after is Mapping,
        same_outside(after.entries(), entries, codec.fields().keys()),
{
    let outcomes = choose|outcomes: Seq<EntryOutcome>| #[trigger]
        codec.fields().encodes_fields(value, outcomes) && Ok::<Tree, ErrorView>(tree)
            == record_tree(outcomes);
    codec.fields().lemma_entries(value, outcomes);
    let (last, found) = choose|last: Map<Seq<char>, Tree>, found: Result<V, ErrorView>| #[trigger]
        codec.fields().decodes_fields(entries, last, found) && after == Tree::Mapping(last)
            && match found {
            Ok(values) => out matches Ok(record) && assembles(codec.constructor(), values, record),
            Err(e) => out == Err::<S, ErrorView>(e),
        };
    codec.fields().lemma_read_back(value, outcomes, entries, last, found);
}

/// The keys of the map that a valid record is encoded to are the keys of
/// the fields whose slots the record fills: an empty optional slot leaves
/// no entry, whatever its place among the fields.
pub proof fn lemma_keys_written<S, V, L, K, OT, O>(
    codec: RecordCodec<S, V, L, K, OT, O>,
    value: S,
    tree: Tree,
) where
    S: DeepView,
    O: CodecOps<OT>,
    L: FieldsRoundTrip<S, OT, O> + FieldList<S, OT, O, Values = V>,
    K: Fn(V) -> S,

    requires
        codec.valid(value),
        codec.encodes(value, Ok(tree)),
    ensures
        tree is Mapping,
        tree.entries().dom() == codec.fields().written(value),
{
    let outcomes = choose|outcomes: Seq<EntryOutcome>| #[trigger]
        codec.fields().encodes_fields(value, outcomes) && Ok::<Tree, ErrorView>(tree)
            == record_tree(outcomes);
    codec.fields().lemma_entries(value, outcomes);
}

} // verus!
