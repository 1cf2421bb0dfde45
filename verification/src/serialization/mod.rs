//! Codecs, the backend contract they are written against, and the lenses
//! into list and map nodes.

pub mod builtins;
pub mod json;
pub mod laws;
pub mod ops;
pub mod record_laws;
pub mod views;

pub use builtins::record_builder::MapCodecBuilder;
pub use ops::CodecOps;
pub use views::{CodecViews, ListView, ListViewMut, MapView, MapViewMut};

use crate::fixers::{RepairCodec, TypeRewriteRule};
use crate::result::{DataResult, ErrorView};
use crate::serialization::builtins::codecs::{
    ArcCodec, BoundedCodec, BoxCodec, DispatchCodec, DynamicCodec, EitherCodec, ListCodec,
    OrElseCodec, PairCodec, TryElseCodec, UnitCodec, XMapCodec,
};
use crate::serialization::builtins::interval::Interval;
use crate::serialization::builtins::records::{OptionalField, RecordField};
use crate::serialization::builtins::recursive::{
    bounds_of, is_least, lemma_least_mirrors, lemma_least_within, preserved_by, within_bounds,
    Bounds, Placeholder,
};
use crate::tree::Tree;
use vstd::prelude::*;
use vstd::std_specs::convert::IntoSpec;

verus! {

/// What an `encode` call returned, read as a tree or an error.
pub open spec fn encoded<OT, O: CodecOps<OT>>(ops: &O, r: DataResult<OT>) -> Result<
    Tree,
    ErrorView,
> {
    match r {
        Ok(node) => Ok(ops.tree(node)),
        Err(e) => Err(e@),
    }
}

/// What a `decode` call returned, with the error read as its view.
pub open spec fn decoded<T>(r: DataResult<T>) -> Result<T, ErrorView> {
    match r {
        Ok(value) => Ok(value),
        Err(e) => Err(e@),
    }
}

/// A codec for values of type `T`: a way to write such a value as a
/// representation tree and to read it back, over any backend `O`.
///
/// A codec is described by two relations. `encodes(v, out)` holds of the
/// outcomes that encoding `v` may have; `decodes(before, after, out)` holds
/// of the outcomes that decoding a node may have, where `before` is the tree
/// of the node when the call starts and `after` its tree when the call
/// returns.
pub trait Codec<T, OT, O: CodecOps<OT>> {
    /// Whether encoding `value` may end in `out`.
    spec fn encodes(&self, value: T, out: Result<Tree, ErrorView>) -> bool;

    /// Whether decoding a node that stands for `before` may end in `out`,
    /// leaving the node standing for `after`.
    spec fn decodes(&self, before: Tree, after: Tree, out: Result<T, ErrorView>) -> bool;

    /// Writes `value` as a new node of the backend.
    fn encode(&self, ops: &O, value: &T) -> (r: DataResult<OT>)
        ensures
            self.encodes(*value, encoded(ops, r)),
    ;

    /// Reads a value from `value`. The node is taken by mutable reference so
    /// that repairs can be made in place.
    fn decode(&self, ops: &O, value: &mut OT) -> (r: DataResult<T>)
        ensures
            self.decodes(ops.tree(*old(value)), ops.tree(*final(value)), decoded(r)),
    ;
}

/// Whether the codec `a` encodes and decodes exactly as the codec `b` does.
pub open spec fn mirrors<T, OT, O: CodecOps<OT>, A: Codec<T, OT, O>, B: Codec<T, OT, O>>(
    a: A,
    b: B,
) -> bool {
    &&& forall|value: T, out: Result<Tree, ErrorView>|
        a.encodes(value, out) <==> b.encodes(value, out)
    &&& forall|before: Tree, after: Tree, out: Result<T, ErrorView>|
        a.decodes(before, after, out) <==> b.decodes(before, after, out)
}

/// Types that come with a codec of their own.
pub trait DefaultCodec<OT, O: CodecOps<OT>>: Sized {
    /// The type of the default codec.
    type Default: Codec<Self, OT, O>;

    /// The default codec of the type.
    fn codec() -> Self::Default;
}

/// The combinators that every codec offers.
pub trait CodecAdapters<T, OT, O: CodecOps<OT>>: Sized + Codec<T, OT, O> {
    /// This codec as the codec of the field `name` of a record, whose value
    /// `getter` takes from the record. `getter` must accept every record.
    fn field_of<S, G: Fn(&S) -> &T>(self, name: &str, getter: G) -> (r: RecordField<
        T,
        Self,
        S,
        G,
        OT,
        O,
    >)
        requires
            forall|record: &S| call_requires(getter, (record,)),
        ensures
            r.name() == name@,
            r.getter() == getter,
            r.codec() == self,
            r.defined(),
    {
        RecordField::new(name, getter, self)
    }

    /// This codec as the codec of the optional field `name` of a record,
    /// whose value `getter` takes from the record. `getter` must accept
    /// every record.
    fn optional_field_of<S, G: Fn(&S) -> &Option<T>>(self, name: &str, getter: G) -> (r:
        OptionalField<T, Self, S, G, OT, O>)
        requires
            forall|record: &S| call_requires(getter, (record,)),
        ensures
            r.name() == name@,
            r.getter() == getter,
            r.codec() == self,
            r.defined(),
    {
        OptionalField::new(name, getter, self)
    }

    /// The codec of vectors whose elements this codec handles.
    fn list_of(self) -> (r: ListCodec<T, Self, OT, O>)
        ensures
            r.inner() == self,
            r.defined(),
    {
        ListCodec::new(self)
    }

    /// The codec of another type `U`, given a function each way between `T`
    /// and `U`. Both functions must accept every input; that they undo each
    /// other is for the caller to see to.
    fn xmap<U, F, G>(self, to_new: F, from_new: G) -> (r: XMapCodec<T, U, Self, F, G, OT, O>) where
        F: Fn(&T) -> U,
        G: Fn(&U) -> T,

        requires
            forall|x: &T| call_requires(to_new, (x,)),
            forall|y: &U| call_requires(from_new, (y,)),
        ensures
            r.inner() == self,
            r.to_new() == to_new,
            r.from_new() == from_new,
            r.defined(),
    {
        XMapCodec::new(self, to_new, from_new)
    }

    /// The codec of pairs of a value of this codec and a value of `right`.
    fn pair<R, Rc: Codec<R, OT, O>>(self, right: Rc) -> (r: PairCodec<T, R, Self, Rc, OT, O>)
        ensures
            r.left() == self,
            r.right() == right,
            r.defined(),
    {
        PairCodec::new(self, right)
    }

    /// This codec held to the values of `range`, in both directions. `range`
    /// is an interval or one of std's ranges, each bound taken with its
    /// kind.
    fn bounded<R: Into<Interval<T>>>(self, range: R) -> (r: BoundedCodec<T, Self, OT, O>) where
        T: PartialOrd,

        ensures
            r.inner() == self,
            R::obeys_into_spec() ==> r.range() == range.into_spec(),
            r.defined(),
    {
        BoundedCodec::new(self, range.into())
    }

    /// The codec that tries this codec and falls back to `other` where this
    /// one fails.
    fn try_else<Rc: Codec<T, OT, O>>(self, other: Rc) -> (r: TryElseCodec<T, Self, Rc, OT, O>)
        ensures
            r.first() == self,
            r.second() == other,
            r.defined(),
    {
        TryElseCodec::new(self, other)
    }

    /// The codec that decodes to what `f` computes where this codec fails
    /// to decode. `f` must be callable.
    fn or_else<F: Fn() -> T>(self, f: F) -> (r: OrElseCodec<T, Self, F, OT, O>)
        requires
            call_requires(f, ()),
        ensures
            r.inner() == self,
            r.default_fn() == f,
            r.defined(),
    {
        OrElseCodec::new(self, f)
    }

    /// This codec behind a box: a single-owner handle that encodes and
    /// decodes exactly as this codec does.
    fn dynamic(self) -> (r: DynamicCodec<T, OT, O>) where Self: 'static
        ensures
            mirrors(r, self),
    ;

    /// This codec behind a reference-counted pointer: a handle that can be
    /// cloned and that encodes and decodes exactly as this codec does.
    fn arc(self) -> (r: ArcCodec<T, OT, O>) where Self: 'static
        ensures
            mirrors(r, self),
    ;

    /// The codec that repairs a node with `rule` before this codec decodes
    /// it.
    fn repaired_with<R: TypeRewriteRule<OT, O>>(self, rule: R) -> (r: RepairCodec<
        T,
        Self,
        R,
        OT,
        O,
    >)
        ensures
            r.inner() == self,
            r.rule() == rule,
            r.defined(),
    {
        RepairCodec::new(self, rule)
    }

    /// The codec of boxed values of this codec.
    fn boxed(self) -> (r: BoxCodec<T, OT, O, Self>)
        ensures
            r.inner() == self,
            r.defined(),
    {
        BoxCodec::new(self)
    }
}

impl<T, OT, O: CodecOps<OT>, C: Codec<T, OT, O>> CodecAdapters<T, OT, O> for C {
    fn dynamic(self) -> (r: DynamicCodec<T, OT, O>) where Self: 'static {
        DynamicCodec::new(self)
    }

    fn arc(self) -> (r: ArcCodec<T, OT, O>) where Self: 'static {
        ArcCodec::new(self)
    }
}

/// The codecs that are not made from a codec at hand.
pub struct Codecs;

impl Codecs {
    /// The codec of a type that contains itself. `f` is handed a placeholder
    /// for the codec that it is about to build, embeds it where the type
    /// recurs, and returns the finished codec; the placeholder is then
    /// pointed at that codec, a shared handle to which is returned.
    ///
    /// The result does exactly what the codec that `f` returned does. The
    /// placeholder does what lies within every pair of relations that `f`
    /// preserves, and so does the result; where the relations of the result
    /// are themselves preserved by `f`, the placeholder does exactly what
    /// the result does.
    pub fn recursive<T: 'static, OT: 'static, O: CodecOps<OT> + 'static, F, Oc>(f: F) -> (r:
        ArcCodec<T, OT, O>) where
        F: Fn(DynamicCodec<T, OT, O>) -> Oc + 'static,
        Oc: Codec<T, OT, O> + 'static,

        requires
            forall|placeholder: DynamicCodec<T, OT, O>| call_requires(f, (placeholder,)),
        ensures
            exists|placeholder: DynamicCodec<T, OT, O>, body: Oc|
                #[trigger] call_ensures(f, (placeholder,), body) && mirrors(r, body) && is_least(
                    f,
                    placeholder,
                ) && (preserved_by(f, bounds_of(r)) ==> mirrors(placeholder, r)),
            forall|bounds: Bounds<T>| #[trigger] preserved_by(f, bounds) ==> within_bounds(r, bounds),
    {
        let slot = Placeholder::new(f);
        let placeholder = slot.again();
        let body = slot.build(placeholder);
        let codec = ArcCodec::new(body);
        proof {
            assert forall|bounds: Bounds<T>| #[trigger] preserved_by(f, bounds) implies within_bounds(
                codec,
                bounds,
            ) by {
                lemma_least_within(f, placeholder, bounds);
                assert(within_bounds(body, bounds));
            }
            if preserved_by(f, bounds_of(codec)) {
                lemma_least_mirrors(f, placeholder, codec);
            }
        }
        slot.install(codec.share());
        codec
    }

    /// The codec of the union of what `left` and `right` handle. Decoding
    /// tries `left` first.
    pub fn either<T, T2, OT, O: CodecOps<OT>, Lc: Codec<T, OT, O>, Rc: Codec<T2, OT, O>>(
        left: Lc,
        right: Rc,
    ) -> (r: EitherCodec<T, T2, Lc, Rc, OT, O>)
        ensures
            r.left() == left,
            r.right() == right,
            r.defined(),
    {
        EitherCodec::new(left, right)
    }

    /// The codec that asks `from_type_to_codec` which codec encodes a value
    /// and `from_ops_to_codec` which codec decodes a node. Both selectors
    /// must accept every input.
    pub fn dispatch<T, OT, O, E, F>(from_type_to_codec: E, from_ops_to_codec: F) -> (r:
        DispatchCodec<T, OT, O, E, F>) where
        O: CodecOps<OT>,
        E: Fn(&T) -> DataResult<DynamicCodec<T, OT, O>>,
        F: Fn(&O, &OT) -> DataResult<DynamicCodec<T, OT, O>>,

        requires
            forall|value: &T| call_requires(from_type_to_codec, (value,)),
            forall|ops: &O, node: &OT| call_requires(from_ops_to_codec, (ops, node)),
        ensures
            r.value_selector() == from_type_to_codec,
            r.repr_selector() == from_ops_to_codec,
            r.defined(),
    {
        DispatchCodec::new(from_type_to_codec, from_ops_to_codec)
    }

    /// The codec of the unit value.
    pub fn unit<OT, O: CodecOps<OT>>() -> UnitCodec<OT, O> {
        UnitCodec::new()
    }
}

} // verus!
