//! Rewrite rules: repairs applied to a representation value so that data
//! written for an older shape can be read by the codec of the current one.

use crate::result::{DataResult, ErrorView};
use crate::serialization::ops::CodecOps;
use crate::serialization::{decoded, Codec};
use crate::tree::Tree;
use std::marker::PhantomData;
use vstd::prelude::*;

verus! {

/// A rule that turns a representation value into another value of the same
/// backend.
pub trait TypeRewriteRule<OT, O: CodecOps<OT>> {
    /// Whether the rule may turn a value that stands for `before` into one
    /// that stands for `after`.
    spec fn rewrites(&self, before: Tree, after: Tree) -> bool;

    /// Applies the rule to `value`.
    fn fix_data(&self, ops: &O, value: OT) -> (r: OT)
        ensures
            self.rewrites(ops.tree(value), ops.tree(r)),
    ;
}

/// Whether the function `f` may turn a node that stands for `before` into
/// one that stands for `after`.
pub open spec fn turns_into<OT, O: CodecOps<OT>, F: Fn(&O, OT) -> OT>(
    f: F,
    before: Tree,
    after: Tree,
) -> bool {
    exists|ops: O, node: OT, fixed: OT|
        ops.tree(node) == before && ops.tree(fixed) == after && #[trigger] call_ensures(
            f,
            (&ops, node),
            fixed,
        )
}

/// The rule that a function makes.
#[verifier::reject_recursive_types(OT)]
#[verifier::reject_recursive_types(O)]
pub struct FnRule<OT, O: CodecOps<OT>, F: Fn(&O, OT) -> OT> {
    fix: F,
    _phantom: PhantomData<(OT, O)>,
}

impl<OT, O: CodecOps<OT>, F: Fn(&O, OT) -> OT> FnRule<OT, O, F> {
    #[verifier::type_invariant]
    spec fn function_is_total(self) -> bool {
        forall|ops: &O, node: OT| call_requires(self.fix, (ops, node))
    }

    /// The function that the rule applies.
    pub closed spec fn function(&self) -> F {
        self.fix
    }

    /// The rule that applies `fix`. `fix` must accept every input.
    pub fn new(fix: F) -> (r: Self)
        requires
            forall|ops: &O, node: OT| call_requires(fix, (ops, node)),
        ensures
            r.function() == fix,
            r.defined(),
    {
        FnRule { fix, _phantom: PhantomData }
    }

    /// Whether the rule may turn `before` into `after`: as its function
    /// does.
    pub open spec fn may_rewrite(&self, before: Tree, after: Tree) -> bool {
        turns_into(self.function(), before, after)
    }

    /// Whether the relation of the rule is `may_rewrite`.
    pub open spec fn defined(&self) -> bool {
        forall|before: Tree, after: Tree| #[trigger]
            self.rewrites(before, after) <==> self.may_rewrite(before, after)
    }
}

impl<OT, O: CodecOps<OT>, F: Fn(&O, OT) -> OT> TypeRewriteRule<OT, O> for FnRule<OT, O, F> {
    open spec fn rewrites(&self, before: Tree, after: Tree) -> bool {
        self.may_rewrite(before, after)
    }

    fn fix_data(&self, ops: &O, value: OT) -> (r: OT) {
        proof {
            use_type_invariant(self);
        }
        let ghost before = ops.tree(value);
        let fixed = (self.fix)(ops, value);
        assert(call_ensures(self.function(), (ops, value), fixed));
        fixed
    }
}

/// The repair operation of every backend.
pub trait Repair<OT>: CodecOps<OT> {
    /// Applies `rule` to `value`.
    fn repair<R: TypeRewriteRule<OT, Self>>(&self, value: OT, rule: R) -> (r: OT)
        ensures
            rule.rewrites(self.tree(value), self.tree(r)),
    {
        rule.fix_data(self, value)
    }
}

impl<OT, O: CodecOps<OT>> Repair<OT> for O {
}

/// A codec that applies a rewrite rule to a node before its inner codec
/// decodes the node. The repaired value stays in the node. Encoding is that
/// of the inner codec.
pub struct RepairCodec<T, C: Codec<T, OT, O>, R: TypeRewriteRule<OT, O>, OT, O: CodecOps<OT>> {
    codec: C,
    rule: R,
    _phantom: PhantomData<(T, OT, O)>,
}

impl<T, C: Codec<T, OT, O>, R: TypeRewriteRule<OT, O>, OT, O: CodecOps<OT>> RepairCodec<
    T,
    C,
    R,
    OT,
    O,
> {
    /// The codec that does the work.
    pub closed spec fn inner(&self) -> C {
        self.codec
    }

    /// The rule that is applied before decoding.
    pub closed spec fn rule(&self) -> R {
        self.rule
    }

    /// The codec that repairs a node with `rule` and then decodes it with
    /// `codec`.
    pub fn new(codec: C, rule: R) -> (r: Self)
        ensures
            r.inner() == codec,
            r.rule() == rule,
            r.defined(),
    {
        RepairCodec { codec, rule, _phantom: PhantomData }
    }
}

impl<T, C: Codec<T, OT, O>, R: TypeRewriteRule<OT, O>, OT, O: CodecOps<OT>> RepairCodec<T, C, R, OT, O> {
    /// Whether encoding `value` may end in `out`: as the inner codec
    /// encodes.
    pub open spec fn may_encode(&self, value: T, out: Result<Tree, ErrorView>) -> bool {
        self.inner().encodes(value, out)
    }

    /// Whether decoding may end in `out`: the rule repairs the node, and the
    /// inner codec decodes the repaired node.
    pub open spec fn may_decode(&self, before: Tree, after: Tree, out: Result<T, ErrorView>) -> bool {
        exists|repaired: Tree|
            #[trigger] self.rule().rewrites(before, repaired) && self.inner().decodes(
                repaired,
                after,
                out,
            )
    }

    /// Whether the relations of the codec are `may_encode` and `may_decode`.
    pub open spec fn defined(&self) -> bool {
        &&& forall|value: T, out: Result<Tree, ErrorView>| #[trigger]
            self.encodes(value, out) <==> self.may_encode(value, out)
        &&& forall|before: Tree, after: Tree, out: Result<T, ErrorView>| #[trigger]
            self.decodes(before, after, out) <==> self.may_decode(before, after, out)
    }
}

impl<T, C: Codec<T, OT, O>, R: TypeRewriteRule<OT, O>, OT, O: CodecOps<OT>> Codec<
    T,
    OT,
    O,
> for RepairCodec<T, C, R, OT, O> {
    open spec fn encodes(&self, value: T, out: Result<Tree, ErrorView>) -> bool {
        self.may_encode(value, out)
    }

    open spec fn decodes(&self, before: Tree, after: Tree, out: Result<T, ErrorView>) -> bool {
        self.may_decode(before, after, out)
    }

    fn encode(&self, ops: &O, value: &T) -> (r: DataResult<OT>) {
        self.codec.encode(ops, value)
    }

    fn decode(&self, ops: &O, value: &mut OT) -> (r: DataResult<T>) {
        let ghost before = ops.tree(*value);
        let mut taken = ops.create_unit();
        std::mem::swap(value, &mut taken);
        let fixed = self.rule.fix_data(ops, taken);
        let ghost repaired = ops.tree(fixed);
        *value = fixed;
        assert(self.rule().rewrites(before, repaired));
        let found = self.codec.decode(ops, value);
        assert(self.inner().decodes(repaired, ops.tree(*value), decoded(found)));
        found
    }
}

} // verus!
