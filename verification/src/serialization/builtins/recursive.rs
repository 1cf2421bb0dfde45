//! The placeholder that lets a codec refer to itself before it exists.

use crate::result::{DataResult, ErrorView};
use crate::serialization::builtins::codecs::{ArcCodec, DynamicCodec};
use crate::serialization::ops::CodecOps;
use crate::serialization::{decoded, encoded, mirrors, Codec};
use crate::tree::Tree;
use std::rc::Rc;
use vstd::cell::invcell::InvCell;
use vstd::predicate::Predicate;
use vstd::prelude::*;

verus! {

/// A pair of relations that a codec may be held to: one for encoding, one
/// for decoding.
#[verifier::reject_recursive_types(T)]
pub ghost struct Bounds<T> {
    pub enc: spec_fn(T, Result<Tree, ErrorView>) -> bool,
    pub dec: spec_fn(Tree, Tree, Result<T, ErrorView>) -> bool,
}

/// Whether every outcome that `codec` may have lies within `bounds`.
pub open spec fn within_bounds<T, OT, O: CodecOps<OT>, C: Codec<T, OT, O>>(
    codec: C,
    bounds: Bounds<T>,
) -> bool {
    &&& forall|value: T, out: Result<Tree, ErrorView>| #[trigger]
        codec.encodes(value, out) ==> (bounds.enc)(value, out)
    &&& forall|before: Tree, after: Tree, out: Result<T, ErrorView>| #[trigger]
        codec.decodes(before, after, out) ==> (bounds.dec)(before, after, out)
}

/// The relations of `codec`, as a pair.
pub open spec fn bounds_of<T, OT, O: CodecOps<OT>, C: Codec<T, OT, O>>(codec: C) -> Bounds<T> {
    Bounds {
        enc: |value: T, out: Result<Tree, ErrorView>| codec.encodes(value, out),
        dec: |before: Tree, after: Tree, out: Result<T, ErrorView>|
            codec.decodes(before, after, out),
    }
}

/// Whether `bounds` hold of every codec that the builder `f` builds around a
/// placeholder of which they hold.
pub open spec fn preserved_by<T, OT, O: CodecOps<OT>, F, Oc>(f: F, bounds: Bounds<T>) -> bool where
    F: Fn(DynamicCodec<T, OT, O>) -> Oc,
    Oc: Codec<T, OT, O>,
 {
    forall|placeholder: DynamicCodec<T, OT, O>, body: Oc|
        within_bounds(placeholder, bounds) && #[trigger] call_ensures(f, (placeholder,), body)
            ==> within_bounds(body, bounds)
}

/// Whether encoding `value` may end in `out` within every pair of relations
/// that the builder `f` preserves.
pub open spec fn encodes_in_all<T, OT, O: CodecOps<OT>, F, Oc>(
    f: F,
    value: T,
    out: Result<Tree, ErrorView>,
) -> bool where F: Fn(DynamicCodec<T, OT, O>) -> Oc, Oc: Codec<T, OT, O> {
    forall|bounds: Bounds<T>| #[trigger]
        preserved_by::<T, OT, O, F, Oc>(f, bounds) ==> (bounds.enc)(value, out)
}

/// Whether decoding may end in `out` within every pair of relations that the
/// builder `f` preserves.
pub open spec fn decodes_in_all<T, OT, O: CodecOps<OT>, F, Oc>(
    f: F,
    before: Tree,
    after: Tree,
    out: Result<T, ErrorView>,
) -> bool where F: Fn(DynamicCodec<T, OT, O>) -> Oc, Oc: Codec<T, OT, O> {
    forall|bounds: Bounds<T>| #[trigger]
        preserved_by::<T, OT, O, F, Oc>(f, bounds) ==> (bounds.dec)(before, after, out)
}

/// Whether the outcomes that `codec` may have are exactly those that lie
/// within every pair of relations that the builder `f` preserves: the least
/// behaviour that a codec built by `f` around itself can have.
pub open spec fn is_least<T, OT, O: CodecOps<OT>, F, Oc, C: Codec<T, OT, O>>(
    f: F,
    codec: C,
) -> bool where F: Fn(DynamicCodec<T, OT, O>) -> Oc, Oc: Codec<T, OT, O> {
    &&& forall|value: T, out: Result<Tree, ErrorView>| #[trigger]
        codec.encodes(value, out) <==> encodes_in_all::<T, OT, O, F, Oc>(f, value, out)
    &&& forall|before: Tree, after: Tree, out: Result<T, ErrorView>| #[trigger]
        codec.decodes(before, after, out) <==> decodes_in_all::<T, OT, O, F, Oc>(
            f,
            before,
            after,
            out,
        )
}

/// What a placeholder's cell may hold: nothing, or a codec whose outcomes
/// lie within every pair of relations that is admissible.
#[verifier::reject_recursive_types(T)]
pub ghost struct Grown<T> {
    pub admissible: spec_fn(Bounds<T>) -> bool,
}

impl<T, OT, O: CodecOps<OT>> Predicate<Option<ArcCodec<T, OT, O>>> for Grown<T> {
    open spec fn predicate(&self, v: Option<ArcCodec<T, OT, O>>) -> bool {
        match v {
            Some(codec) => forall|bounds: Bounds<T>| #[trigger]
                (self.admissible)(bounds) ==> within_bounds(codec, bounds),
            None => true,
        }
    }
}

/// The cell of a placeholder.
pub(crate) type Slot<T, OT, O> = Rc<InvCell<Option<ArcCodec<T, OT, O>>, Grown<T>>>;

/// Whether `cell` and `builder` belong together: the builder accepts every
/// placeholder, and the cell admits the codecs that keep within every pair
/// of relations that the builder preserves.
pub(crate) open spec fn fitted<T, OT, O: CodecOps<OT>, F, Oc>(cell: Slot<T, OT, O>, builder: F) -> bool where
    F: Fn(DynamicCodec<T, OT, O>) -> Oc,
    Oc: Codec<T, OT, O>,
 {
    &&& forall|placeholder: DynamicCodec<T, OT, O>| call_requires(builder, (placeholder,))
    &&& forall|bounds: Bounds<T>|
        (cell.predicate().admissible)(bounds) <==> #[trigger] preserved_by::<T, OT, O, F, Oc>(
            builder,
            bounds,
        )
}

/// A maker of handles to placeholders. A placeholder whose cell is still
/// empty asks it for a handle to itself.
pub(crate) trait Reboxer<T, OT, O: CodecOps<OT>, F, Oc> where
    F: Fn(DynamicCodec<T, OT, O>) -> Oc,
    Oc: Codec<T, OT, O>,
 {
    /// A handle to a placeholder on `cell` for `builder`.
    fn rebox(&self, cell: Slot<T, OT, O>, builder: Rc<F>) -> (handle: DynamicCodec<T, OT, O>)
        requires
            fitted::<T, OT, O, F, Oc>(cell, *builder),
        ensures
            is_least(*builder, handle),
    ;
}

/// A codec that stands in for the codec that a builder is about to build.
/// It shares a cell with the handle that created it; the cell starts empty
/// and is filled once, with the finished codec, and from then on the
/// placeholder hands every call to that codec. While the cell is empty, the
/// placeholder has the builder build the codec anew for the call at hand;
/// a builder that itself encodes or decodes through its placeholder
/// therefore never returns.
#[verifier::reject_recursive_types(T)]
#[verifier::reject_recursive_types(OT)]
#[verifier::reject_recursive_types(O)]
#[verifier::reject_recursive_types(F)]
#[verifier::reject_recursive_types(Oc)]
pub struct Placeholder<T, OT, O, F, Oc> where
    O: CodecOps<OT>,
    F: Fn(DynamicCodec<T, OT, O>) -> Oc,
    Oc: Codec<T, OT, O>,
 {
    cell: Slot<T, OT, O>,
    builder: Rc<F>,
    boxer: Box<dyn Reboxer<T, OT, O, F, Oc>>,
}

/// The maker of handles that every placeholder carries.
pub(crate) struct Maker;

impl<T, OT, O, F, Oc> Reboxer<T, OT, O, F, Oc> for Maker where
    T: 'static,
    OT: 'static,
    O: CodecOps<OT> + 'static,
    F: Fn(DynamicCodec<T, OT, O>) -> Oc + 'static,
    Oc: Codec<T, OT, O> + 'static,
 {
    fn rebox(&self, cell: Slot<T, OT, O>, builder: Rc<F>) -> (handle: DynamicCodec<T, OT, O>) {
        let placeholder = Placeholder::assemble(cell, builder);
        let handle = DynamicCodec::new(placeholder);
        proof {
            assert forall|value: T, out: Result<Tree, ErrorView>| #[trigger]
                handle.encodes(value, out) <==> encodes_in_all::<T, OT, O, F, Oc>(
                    *builder,
                    value,
                    out,
                ) by {
                assert(handle.encodes(value, out) <==> placeholder.encodes(value, out));
            }
            assert forall|before: Tree, after: Tree, out: Result<T, ErrorView>| #[trigger]
                handle.decodes(before, after, out) <==> decodes_in_all::<T, OT, O, F, Oc>(
                    *builder,
                    before,
                    after,
                    out,
                ) by {
                assert(handle.decodes(before, after, out) <==> placeholder.decodes(
                    before,
                    after,
                    out,
                ));
            }
        }
        handle
    }
}

impl<T, OT, O, F, Oc> Placeholder<T, OT, O, F, Oc> where
    O: CodecOps<OT>,
    F: Fn(DynamicCodec<T, OT, O>) -> Oc,
    Oc: Codec<T, OT, O>,
 {
    #[verifier::type_invariant]
    spec fn parts_fit(self) -> bool {
        fitted::<T, OT, O, F, Oc>(self.cell, *self.builder)
    }

    /// The builder of the codec that the placeholder stands for.
    pub closed spec fn builder(&self) -> F {
        *self.builder
    }

    /// Whether encoding `value` may end in `out`: within every pair of
    /// relations that the builder preserves.
    pub open spec fn may_encode(&self, value: T, out: Result<Tree, ErrorView>) -> bool {
        encodes_in_all::<T, OT, O, F, Oc>(self.builder(), value, out)
    }

    /// Whether decoding may end in `out`: within every pair of relations
    /// that the builder preserves.
    pub open spec fn may_decode(&self, before: Tree, after: Tree, out: Result<T, ErrorView>) -> bool {
        decodes_in_all::<T, OT, O, F, Oc>(self.builder(), before, after, out)
    }

    /// Has the builder build a codec around `placeholder`.
    pub fn build(&self, placeholder: DynamicCodec<T, OT, O>) -> (body: Oc)
        ensures
            call_ensures(self.builder(), (placeholder,), body),
    {
        proof {
            use_type_invariant(self);
        }
        (*self.builder)(placeholder)
    }

    /// Fills the cell with `codec`, which must keep within every pair of
    /// relations that the builder preserves.
    pub fn install(&self, codec: ArcCodec<T, OT, O>)
        requires
            forall|bounds: Bounds<T>| #[trigger]
                preserved_by::<T, OT, O, F, Oc>(self.builder(), bounds) ==> within_bounds(
                    codec,
                    bounds,
                ),
    {
        proof {
            use_type_invariant(self);
            let grown = self.cell.predicate();
            assert forall|bounds: Bounds<T>| #[trigger] (grown.admissible)(bounds) implies within_bounds(
                codec,
                bounds,
            ) by {
                assert(preserved_by::<T, OT, O, F, Oc>(self.builder(), bounds));
            }
            assert(grown.predicate(Some(codec)));
        }
        self.cell.set(Some(codec));
    }

    /// A handle to the codec in the cell, if the cell is filled. What comes
    /// back depends on whether the cell was filled by the time of the call;
    /// a codec that comes back keeps within every pair of relations that
    /// the builder preserves.
    pub fn target(&self) -> (r: Option<ArcCodec<T, OT, O>>)
        ensures
            r matches Some(codec) ==> forall|bounds: Bounds<T>| #[trigger]
                preserved_by::<T, OT, O, F, Oc>(self.builder(), bounds) ==> within_bounds(
                    codec,
                    bounds,
                ),
    {
        proof {
            use_type_invariant(self);
        }
        let held = self.cell.replace(None);
        let copy = match &held {
            Some(codec) => Some(codec.share()),
            None => None,
        };
        self.cell.set(held);
        let ghost found = copy;
        proof {
            if found is Some {
                let codec = found->Some_0;
                assert forall|bounds: Bounds<T>| #[trigger]
                    preserved_by::<T, OT, O, F, Oc>(self.builder(), bounds) implies within_bounds(
                    codec,
                    bounds,
                ) by {
                    assert((self.cell.predicate().admissible)(bounds));
                }
            }
        }
        copy
    }

    /// Whether a codec that the builder builds around a handle to a
    /// placeholder of its own may encode `value` with the outcome `out`.
    pub open spec fn rebuilt_encodes(&self, value: T, out: Result<Tree, ErrorView>) -> bool {
        exists|again: DynamicCodec<T, OT, O>, body: Oc|
            is_least(self.builder(), again) && #[trigger] call_ensures(
                self.builder(),
                (again,),
                body,
            ) && body.encodes(value, out)
    }

    /// Whether a codec that the builder builds around a handle to a
    /// placeholder of its own may decode with the outcome `out`.
    pub open spec fn rebuilt_decodes(
        &self,
        before: Tree,
        after: Tree,
        out: Result<T, ErrorView>,
    ) -> bool {
        exists|again: DynamicCodec<T, OT, O>, body: Oc|
            is_least(self.builder(), again) && #[trigger] call_ensures(
                self.builder(),
                (again,),
                body,
            ) && body.decodes(before, after, out)
    }

    /// A handle to a placeholder on the same cell, for the same builder.
    pub fn again(&self) -> (handle: DynamicCodec<T, OT, O>)
        ensures
            is_least(self.builder(), handle),
    {
        proof {
            use_type_invariant(self);
        }
        self.boxer.rebox(self.cell.clone(), self.builder.clone())
    }

    /// Encodes `value` with what the cell held, `target`: with the codec
    /// that was in it, or for an empty cell with a codec that the builder
    /// builds for this call.
    pub fn encode_through(&self, target: &Option<ArcCodec<T, OT, O>>, ops: &O, value: &T) -> (r:
        DataResult<OT>)
        ensures
            match *target {
                Some(codec) => codec.encodes(*value, encoded(ops, r)),
                None => self.rebuilt_encodes(*value, encoded(ops, r)),
            },
    {
        match target {
            Some(codec) => codec.encode(ops, value),
            None => {
                let again = self.again();
                let body = self.build(again);
                let r = body.encode(ops, value);
                assert(call_ensures(self.builder(), (again,), body));
                r
            },
        }
    }

    /// Decodes `value` with what the cell held, `target`: with the codec
    /// that was in it, or for an empty cell with a codec that the builder
    /// builds for this call.
    pub fn decode_through(&self, target: &Option<ArcCodec<T, OT, O>>, ops: &O, value: &mut OT) -> (r:
        DataResult<T>)
        ensures
            match *target {
                Some(codec) => codec.decodes(
                    ops.tree(*old(value)),
                    ops.tree(*final(value)),
                    decoded(r),
                ),
                None => self.rebuilt_decodes(
                    ops.tree(*old(value)),
                    ops.tree(*final(value)),
                    decoded(r),
                ),
            },
    {
        match target {
            Some(codec) => codec.decode(ops, value),
            None => {
                let again = self.again();
                let body = self.build(again);
                let r = body.decode(ops, value);
                assert(call_ensures(self.builder(), (again,), body));
                r
            },
        }
    }
}

impl<T, OT, O, F, Oc> Placeholder<T, OT, O, F, Oc> where
    T: 'static,
    OT: 'static,
    O: CodecOps<OT> + 'static,
    F: Fn(DynamicCodec<T, OT, O>) -> Oc + 'static,
    Oc: Codec<T, OT, O> + 'static,
 {
    /// The placeholder on `cell` for `builder`.
    pub(crate) fn assemble(cell: Slot<T, OT, O>, builder: Rc<F>) -> (r: Self)
        requires
            fitted::<T, OT, O, F, Oc>(cell, *builder),
        ensures
            r.builder() == *builder,
    {
        Placeholder { cell, builder, boxer: Box::new(Maker) }
    }

    /// A placeholder with an empty cell for the codec that `f` builds. `f`
    /// must accept every placeholder.
    pub fn new(f: F) -> (r: Self)
        requires
            forall|placeholder: DynamicCodec<T, OT, O>| call_requires(f, (placeholder,)),
        ensures
            r.builder() == f,
    {
        let ghost admissible = |bounds: Bounds<T>| preserved_by::<T, OT, O, F, Oc>(f, bounds);
        let cell = Rc::new(InvCell::new(None, Ghost(Grown { admissible })));
        Self::assemble(cell, Rc::new(f))
    }
}

/// A codec that does the least that the builder `f` allows keeps within
/// every pair of relations that `f` preserves.
pub proof fn lemma_least_within<T, OT, O, F, Oc, P>(f: F, least: P, bounds: Bounds<T>) where
    O: CodecOps<OT>,
    F: Fn(DynamicCodec<T, OT, O>) -> Oc,
    Oc: Codec<T, OT, O>,
    P: Codec<T, OT, O>,

    requires
        is_least(f, least),
        preserved_by::<T, OT, O, F, Oc>(f, bounds),
    ensures
        within_bounds(least, bounds),
{
    assert forall|value: T, out: Result<Tree, ErrorView>| #[trigger]
        least.encodes(value, out) implies (bounds.enc)(value, out) by {
        assert(encodes_in_all::<T, OT, O, F, Oc>(f, value, out));
    }
    assert forall|before: Tree, after: Tree, out: Result<T, ErrorView>| #[trigger]
        least.decodes(before, after, out) implies (bounds.dec)(before, after, out) by {
        assert(decodes_in_all::<T, OT, O, F, Oc>(f, before, after, out));
    }
}

impl<T, OT, O, F, Oc> Codec<T, OT, O> for Placeholder<T, OT, O, F, Oc> where
    O: CodecOps<OT>,
    F: Fn(DynamicCodec<T, OT, O>) -> Oc,
    Oc: Codec<T, OT, O>,
 {
    open spec fn encodes(&self, value: T, out: Result<Tree, ErrorView>) -> bool {
        self.may_encode(value, out)
    }

    open spec fn decodes(&self, before: Tree, after: Tree, out: Result<T, ErrorView>) -> bool {
        self.may_decode(before, after, out)
    }

    fn encode(&self, ops: &O, value: &T) -> (r: DataResult<OT>) {
        let target = self.target();
        let r = self.encode_through(&target, ops, value);
        proof {
            let out = encoded(ops, r);
            assert forall|bounds: Bounds<T>| #[trigger]
                preserved_by::<T, OT, O, F, Oc>(self.builder(), bounds) implies (bounds.enc)(
                *value,
                out,
            ) by {
                if target is Some {
                    let codec = target->Some_0;
                    assert(within_bounds(codec, bounds));
                    assert(codec.encodes(*value, out));
                } else {
                    let (again, body) = choose|again: DynamicCodec<T, OT, O>, body: Oc|
                        is_least(self.builder(), again) && #[trigger] call_ensures(
                            self.builder(),
                            (again,),
                            body,
                        ) && body.encodes(*value, out);
                    lemma_least_within(self.builder(), again, bounds);
                    assert(within_bounds(body, bounds));
                }
            }
        }
        r
    }

    fn decode(&self, ops: &O, value: &mut OT) -> (r: DataResult<T>) {
        let ghost before = ops.tree(*value);
        let target = self.target();
        let r = self.decode_through(&target, ops, value);
        proof {
            let out = decoded(r);
            let after = ops.tree(*value);
            assert forall|bounds: Bounds<T>| #[trigger]
                preserved_by::<T, OT, O, F, Oc>(self.builder(), bounds) implies (bounds.dec)(
                before,
                after,
                out,
            ) by {
                if target is Some {
                    let codec = target->Some_0;
                    assert(within_bounds(codec, bounds));
                    assert(codec.decodes(before, after, out));
                } else {
                    let (again, body) = choose|again: DynamicCodec<T, OT, O>, body: Oc|
                        is_least(self.builder(), again) && #[trigger] call_ensures(
                            self.builder(),
                            (again,),
                            body,
                        ) && body.decodes(before, after, out);
                    lemma_least_within(self.builder(), again, bounds);
                    assert(within_bounds(body, bounds));
                }
            }
        }
        r
    }
}

/// A codec that does the least that the builder `f` allows does exactly
/// what `codec` does, where `codec` keeps within every pair of relations
/// that `f` preserves and its own relations are such a pair.
pub proof fn lemma_least_mirrors<T, OT, O, F, Oc, P, C>(f: F, least: P, codec: C) where
    O: CodecOps<OT>,
    F: Fn(DynamicCodec<T, OT, O>) -> Oc,
    Oc: Codec<T, OT, O>,
    P: Codec<T, OT, O>,
    C: Codec<T, OT, O>,

    requires
        is_least(f, least),
        forall|bounds: Bounds<T>| #[trigger]
            preserved_by::<T, OT, O, F, Oc>(f, bounds) ==> within_bounds(codec, bounds),
        preserved_by::<T, OT, O, F, Oc>(f, bounds_of(codec)),
    ensures
        mirrors(least, codec),
{
    let own = bounds_of(codec);
    assert forall|value: T, out: Result<Tree, ErrorView>|
        least.encodes(value, out) <==> codec.encodes(value, out) by {
        if least.encodes(value, out) {
            assert(encodes_in_all::<T, OT, O, F, Oc>(f, value, out));
            assert((own.enc)(value, out));
        }
        if codec.encodes(value, out) {
            assert forall|bounds: Bounds<T>| #[trigger]
                preserved_by::<T, OT, O, F, Oc>(f, bounds) implies (bounds.enc)(value, out) by {
                assert(within_bounds(codec, bounds));
            }
        }
    }
    assert forall|before: Tree, after: Tree, out: Result<T, ErrorView>|
        least.decodes(before, after, out) <==> codec.decodes(before, after, out) by {
        if least.decodes(before, after, out) {
            assert(decodes_in_all::<T, OT, O, F, Oc>(f, before, after, out));
            assert((own.dec)(before, after, out));
        }
        if codec.decodes(before, after, out) {
            assert forall|bounds: Bounds<T>| #[trigger]
                preserved_by::<T, OT, O, F, Oc>(f, bounds) implies (bounds.dec)(before, after, out) by {
                assert(within_bounds(codec, bounds));
            }
        }
    }
}

} // verus!
