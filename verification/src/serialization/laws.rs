//! The round-trip law: decoding what a codec encoded gives the value back.

use crate::number::{lemma_integers_are_exact, F64Convertable, Number};
use crate::fixers::{RepairCodec, TypeRewriteRule};
use crate::result::{DataResult, ErrorView};
use crate::serialization::builtins::codecs::{
    can_decode, can_encode, decodes_entry, decodes_to, fails_on, left_key, maps_to, pair_tree, right_key, selects_by_tree,
    selects_by_value, yields, BoolCodec, BoundedCodec, BoxCodec, DispatchCodec,
    DynamicCodec, EitherCodec, F64Codec, ListCodec, NumberCodec, OrElseCodec, PairCodec,
    StringCodec, TryElseCodec, UnitCodec, XMapCodec,
};
use crate::serialization::builtins::interval::{lawful, within};
use crate::serialization::builtins::recursive::{preserved_by, within_bounds, Bounds};
use crate::serialization::ops::CodecOps;
use crate::serialization::{mirrors, Codec};
use crate::tree::Tree;
use either::Either;
use vstd::prelude::*;

verus! {

/// Whether `out` is a success with a value that reads as `value` does.
pub open spec fn returns_same<T: DeepView>(out: Result<T, ErrorView>, value: T) -> bool {
    out matches Ok(back) && back.deep_view() == value.deep_view()
}

/// Whether `codec` round-trips `value`: encoding it cannot fail, and
/// decoding any tree that encoding it may give cannot but return it.
pub open spec fn round_trips<T: DeepView, OT, O: CodecOps<OT>, C: Codec<T, OT, O>>(
    codec: C,
    value: T,
) -> bool {
    &&& forall|out: Result<Tree, ErrorView>| #[trigger] codec.encodes(value, out) ==> out is Ok
    &&& forall|tree: Tree, after: Tree, out: Result<T, ErrorView>|
        codec.encodes(value, Ok(tree)) && #[trigger] codec.decodes(tree, after, out)
            ==> returns_same(out, value)
}

/// A codec with a round-trip law: for every value that is valid for the
/// codec, decoding what encoding gave returns the value.
pub trait RoundTrip<T: DeepView, OT, O: CodecOps<OT>>: Codec<T, OT, O> + Sized {
    /// The values that the law speaks of.
    spec fn valid(&self, value: T) -> bool;

    /// Encoding a valid value succeeds.
    proof fn lemma_encode_succeeds(&self, value: T, out: Result<Tree, ErrorView>)
        requires
            self.valid(value),
            self.encodes(value, out),
        ensures
            out is Ok,
    ;

    /// Decoding a tree that encoding a valid value gave returns the value.
    proof fn lemma_decode_returns(
        &self,
        value: T,
        tree: Tree,
        after: Tree,
        out: Result<T, ErrorView>,
    )
        requires
            self.valid(value),
            self.encodes(value, Ok(tree)),
            self.decodes(tree, after, out),
        ensures
            returns_same(out, value),
    ;
}

/// The round-trip law: a codec round-trips every value that is valid for it.
pub proof fn lemma_round_trip<T: DeepView, OT, O: CodecOps<OT>, C: RoundTrip<T, OT, O>>(
    codec: C,
    value: T,
)
    requires
        codec.valid(value),
    ensures
        round_trips(codec, value),
{
    assert forall|out: Result<Tree, ErrorView>| #[trigger]
        codec.encodes(value, out) implies out is Ok by {
        codec.lemma_encode_succeeds(value, out);
    }
    assert forall|tree: Tree, after: Tree, out: Result<T, ErrorView>|
        codec.encodes(value, Ok(tree)) && #[trigger] codec.decodes(
            tree,
            after,
            out,
        ) implies returns_same(out, value) by {
        codec.lemma_decode_returns(value, tree, after, out);
    }
}

/// A handle that encodes and decodes exactly as a codec does round-trips
/// every value that the codec round-trips.
pub proof fn lemma_mirror_round_trips<
    T: DeepView,
    OT,
    O: CodecOps<OT>,
    A: Codec<T, OT, O>,
    B: Codec<T, OT, O>,
>(handle: A, codec: B, value: T)
    requires
        mirrors(handle, codec),
        round_trips(codec, value),
    ensures
        round_trips(handle, value),
{
    assert forall|out: Result<Tree, ErrorView>| #[trigger]
        handle.encodes(value, out) implies out is Ok by {
        assert(codec.encodes(value, out));
    }
    assert forall|tree: Tree, after: Tree, out: Result<T, ErrorView>|
        handle.encodes(value, Ok(tree)) && #[trigger] handle.decodes(
            tree,
            after,
            out,
        ) implies returns_same(out, value) by {
        assert(codec.encodes(value, Ok(tree)));
        assert(codec.decodes(tree, after, out));
    }
}

impl<OT, O: CodecOps<OT>> RoundTrip<Number, OT, O> for F64Codec<OT, O> {
    open spec fn valid(&self, value: Number) -> bool {
        true
    }

    proof fn lemma_encode_succeeds(&self, value: Number, out: Result<Tree, ErrorView>) {
    }

    proof fn lemma_decode_returns(
        &self,
        value: Number,
        tree: Tree,
        after: Tree,
        out: Result<Number, ErrorView>,
    ) {
    }
}

impl<OT, O: CodecOps<OT>> RoundTrip<String, OT, O> for StringCodec<OT, O> {
    open spec fn valid(&self, value: String) -> bool {
        true
    }

    proof fn lemma_encode_succeeds(&self, value: String, out: Result<Tree, ErrorView>) {
    }

    proof fn lemma_decode_returns(
        &self,
        value: String,
        tree: Tree,
        after: Tree,
        out: Result<String, ErrorView>,
    ) {
    }
}

impl<OT, O: CodecOps<OT>> RoundTrip<bool, OT, O> for BoolCodec<OT, O> {
    open spec fn valid(&self, value: bool) -> bool {
        true
    }

    proof fn lemma_encode_succeeds(&self, value: bool, out: Result<Tree, ErrorView>) {
    }

    proof fn lemma_decode_returns(
        &self,
        value: bool,
        tree: Tree,
        after: Tree,
        out: Result<bool, ErrorView>,
    ) {
    }
}

impl<OT, O: CodecOps<OT>> RoundTrip<(), OT, O> for UnitCodec<OT, O> {
    open spec fn valid(&self, value: ()) -> bool {
        true
    }

    proof fn lemma_encode_succeeds(&self, value: (), out: Result<Tree, ErrorView>) {
    }

    proof fn lemma_decode_returns(
        &self,
        value: (),
        tree: Tree,
        after: Tree,
        out: Result<(), ErrorView>,
    ) {
    }
}

impl<N: F64Convertable + DeepView, OT, O: CodecOps<OT>> RoundTrip<N, OT, O> for NumberCodec<
    N,
    OT,
    O,
> {
    /// The integers of magnitude up to two to the power of 53: beyond that,
    /// the nearest number need not be the integer itself.
    open spec fn valid(&self, value: N) -> bool {
        -0x20_0000_0000_0000 <= value.to_int() <= 0x20_0000_0000_0000
    }

    proof fn lemma_encode_succeeds(&self, value: N, out: Result<Tree, ErrorView>) {
    }

    proof fn lemma_decode_returns(
        &self,
        value: N,
        tree: Tree,
        after: Tree,
        out: Result<N, ErrorView>,
    ) {
        lemma_integers_are_exact(value.to_int());
        value.lemma_in_range();
        let back = out->Ok_0;
        back.lemma_same_int(value);
    }
}

impl<T: DeepView, C: RoundTrip<T, OT, O>, OT, O: CodecOps<OT>> RoundTrip<Vec<T>, OT, O> for ListCodec<
    T,
    C,
    OT,
    O,
> {
    open spec fn valid(&self, value: Vec<T>) -> bool {
        forall|i: int| 0 <= i < value@.len() ==> #[trigger] self.inner().valid(value@[i])
    }

    proof fn lemma_encode_succeeds(&self, value: Vec<T>, out: Result<Tree, ErrorView>) {
        if let Err(e) = out {
            let i = choose|i: int|
                {
                    &&& 0 <= i < value@.len()
                    &&& #[trigger] self.inner().encodes(value@[i], Err(e))
                    &&& forall|j: int| 0 <= j < i ==> #[trigger] can_encode(self.inner(), value@[j])
                };
            assert(self.inner().valid(value@[i]));
            self.inner().lemma_encode_succeeds(value@[i], Err(e));
        }
    }

    proof fn lemma_decode_returns(
        &self,
        value: Vec<T>,
        tree: Tree,
        after: Tree,
        out: Result<Vec<T>, ErrorView>,
    ) {
        let items = tree.items();
        match out {
            Ok(back) => {
                assert forall|i: int| 0 <= i < value@.len() implies back@[i].deep_view()
                    == value@[i].deep_view() by {
                    assert(self.inner().valid(value@[i]));
                    assert(self.inner().encodes(value@[i], Ok(items[i])));
                    assert(decodes_to(self.inner(), items[i], back@[i]));
                    let child = choose|child: Tree|
                        self.inner().decodes(items[i], child, Ok(back@[i]));
                    self.inner().lemma_decode_returns(value@[i], items[i], child, Ok(back@[i]));
                }
                assert(back.deep_view() =~= value.deep_view());
            },
            Err(e) => {
                let i = choose|i: int|
                    {
                        &&& 0 <= i < items.len()
                        &&& #[trigger] fails_on(self.inner(), items[i], e)
                        &&& forall|j: int|
                            0 <= j < i ==> #[trigger] can_decode(self.inner(), items[j])
                    };
                assert(self.inner().valid(value@[i]));
                assert(self.inner().encodes(value@[i], Ok(items[i])));
                let child = choose|child: Tree| self.inner().decodes(items[i], child, Err(e));
                self.inner().lemma_decode_returns(value@[i], items[i], child, Err(e));
            },
        }
    }
}

impl<OLT, NT, C, F1, F2, OT, O> RoundTrip<NT, OT, O> for XMapCodec<OLT, NT, C, F1, F2, OT, O> where
    OLT: DeepView,
    NT: DeepView,
    C: RoundTrip<OLT, OT, O>,
    F1: Fn(&OLT) -> NT,
    F2: Fn(&NT) -> OLT,
    O: CodecOps<OT>,
 {
    /// The values that the function to the inner type sends to valid values
    /// and that the two functions, one after the other, give back.
    open spec fn valid(&self, value: NT) -> bool {
        &&& forall|x: OLT| #[trigger] maps_to(self.from_new(), value, x) ==> self.inner().valid(x)
        &&& forall|x: OLT, y: OLT, back: NT|
            #[trigger] maps_to(self.from_new(), value, x) && y.deep_view() == x.deep_view()
                && #[trigger] maps_to(self.to_new(), y, back) ==> back.deep_view()
                == value.deep_view()
    }

    proof fn lemma_encode_succeeds(&self, value: NT, out: Result<Tree, ErrorView>) {
        let x = choose|x: OLT| #[trigger]
            maps_to(self.from_new(), value, x) && self.inner().encodes(x, out);
        self.inner().lemma_encode_succeeds(x, out);
    }

    proof fn lemma_decode_returns(
        &self,
        value: NT,
        tree: Tree,
        after: Tree,
        out: Result<NT, ErrorView>,
    ) {
        let x = choose|x: OLT| #[trigger]
            maps_to(self.from_new(), value, x) && self.inner().encodes(x, Ok(tree));
        let found = choose|found: Result<OLT, ErrorView>| #[trigger]
            self.inner().decodes(tree, after, found) && match found {
                Ok(y) => out matches Ok(back) && maps_to(self.to_new(), y, back),
                Err(e) => out == Err::<NT, ErrorView>(e),
            };
        self.inner().lemma_decode_returns(x, tree, after, found);
    }
}

/// The two keys of a pair differ.
pub proof fn lemma_pair_keys_differ()
    ensures
        left_key() != right_key(),
{
    reveal_strlit("left");
    reveal_strlit("right");
    assert(left_key().len() == 4);
    assert(right_key().len() == 5);
}

impl<L, R, Lc, Rc, OT, O> RoundTrip<(L, R), OT, O> for PairCodec<L, R, Lc, Rc, OT, O> where
    L: DeepView,
    R: DeepView,
    Lc: RoundTrip<L, OT, O>,
    Rc: RoundTrip<R, OT, O>,
    O: CodecOps<OT>,
 {
    open spec fn valid(&self, value: (L, R)) -> bool {
        self.left().valid(value.0) && self.right().valid(value.1)
    }

    proof fn lemma_encode_succeeds(&self, value: (L, R), out: Result<Tree, ErrorView>) {
        if let Err(e) = out {
            if self.left().encodes(value.0, Err(e)) {
                self.left().lemma_encode_succeeds(value.0, Err(e));
            } else {
                self.right().lemma_encode_succeeds(value.1, Err(e));
            }
        }
    }

    proof fn lemma_decode_returns(
        &self,
        value: (L, R),
        tree: Tree,
        after: Tree,
        out: Result<(L, R), ErrorView>,
    ) {
        lemma_pair_keys_differ();
        let (left, right) = choose|left: Tree, right: Tree|
            {
                &&& #[trigger] pair_tree(left, right) == tree
                &&& self.left().encodes(value.0, Ok(left))
                &&& self.right().encodes(value.1, Ok(right))
            };
        let entries = tree.entries();
        assert(entries.contains_key(left_key()) && entries[left_key()] == left);
        assert(entries.contains_key(right_key()) && entries[right_key()] == right);
        let (next, first) = choose|next: Map<Seq<char>, Tree>, first: Result<L, ErrorView>| #[trigger]
            decodes_entry(self.left(), entries, left_key(), next, first) && match first {
                Ok(value) => self.decodes_second(next, value, after, out),
                Err(e) => after == Tree::Mapping(next) && out == Err::<(L, R), ErrorView>(e),
            };
        let child = choose|child: Tree| #[trigger]
            self.left().decodes(entries[left_key()], child, first) && next == entries.insert(
                left_key(),
                child,
            );
        self.left().lemma_decode_returns(value.0, left, child, first);
        let head = first->Ok_0;
        assert(next.contains_key(right_key()) && next[right_key()] == right);
        let (last, second) = choose|last: Map<Seq<char>, Tree>, second: Result<R, ErrorView>| #[trigger]
            decodes_entry(self.right(), next, right_key(), last, second) && after == Tree::Mapping(
                last,
            ) && match second {
                Ok(value) => out == Ok::<(L, R), ErrorView>((head, value)),
                Err(e) => out == Err::<(L, R), ErrorView>(e),
            };
        let child2 = choose|child: Tree| #[trigger]
            self.right().decodes(next[right_key()], child, second) && last == next.insert(
                right_key(),
                child,
            );
        self.right().lemma_decode_returns(value.1, right, child2, second);
    }
}

impl<T, C, OT, O> RoundTrip<T, OT, O> for BoundedCodec<T, C, OT, O> where
    T: DeepView + PartialOrd,
    C: RoundTrip<T, OT, O>,
    O: CodecOps<OT>,
 {
    /// The values valid for the inner codec that lie in the range, as does
    /// every value that reads the same; the order of `T` must be a lawful
    /// one.
    open spec fn valid(&self, value: T) -> bool {
        &&& self.inner().valid(value)
        &&& lawful::<T>()
        &&& forall|same: T|
            same.deep_view() == value.deep_view() ==> #[trigger] self.range().holds(same)
    }

    proof fn lemma_encode_succeeds(&self, value: T, out: Result<Tree, ErrorView>) {
        assert(self.range().holds(value));
        self.inner().lemma_encode_succeeds(value, out);
    }

    proof fn lemma_decode_returns(
        &self,
        value: T,
        tree: Tree,
        after: Tree,
        out: Result<T, ErrorView>,
    ) {
        assert(self.range().holds(value));
        let found = choose|found: Result<T, ErrorView>| #[trigger]
            self.inner().decodes(tree, after, found) && match found {
                Ok(value) => {
                    ||| within(self.range(), value, true) && out == Ok::<T, ErrorView>(value)
                    ||| within(self.range(), value, false) && out == Err::<T, ErrorView>(
                        crate::serialization::builtins::codecs::out_of_bounds(),
                    )
                },
                Err(e) => out == Err::<T, ErrorView>(e),
            };
        self.inner().lemma_decode_returns(value, tree, after, found);
        let back = found->Ok_0;
        assert(self.range().holds(back));
    }
}

impl<T, Lc, Rc, OT, O> RoundTrip<T, OT, O> for TryElseCodec<T, Lc, Rc, OT, O> where
    T: DeepView,
    Lc: RoundTrip<T, OT, O>,
    Rc: RoundTrip<T, OT, O>,
    O: CodecOps<OT>,
 {
    /// The values valid for the first codec; and the values valid for the
    /// second that the first cannot encode, provided the first codec fails
    /// on what the second wrote for them and leaves it as it was.
    open spec fn valid(&self, value: T) -> bool {
        ||| self.first().valid(value)
        ||| {
            &&& self.second().valid(value)
            &&& forall|out: Result<Tree, ErrorView>| #[trigger]
                self.first().encodes(value, out) ==> out is Err
            &&& forall|tree: Tree, middle: Tree, found: Result<T, ErrorView>|
                self.second().encodes(value, Ok(tree)) && #[trigger] self.first().decodes(
                    tree,
                    middle,
                    found,
                ) ==> found is Err && middle == tree
        }
    }

    proof fn lemma_encode_succeeds(&self, value: T, out: Result<Tree, ErrorView>) {
        if self.first().valid(value) {
            if self.first_fails_to_encode(value) {
                let e = choose|e: ErrorView| self.first().encodes(value, Err(e));
                self.first().lemma_encode_succeeds(value, Err(e));
            }
        } else {
            if out is Ok && self.first().encodes(value, out) {
            } else {
                self.second().lemma_encode_succeeds(value, out);
            }
        }
    }

    proof fn lemma_decode_returns(
        &self,
        value: T,
        tree: Tree,
        after: Tree,
        out: Result<T, ErrorView>,
    ) {
        if self.first().valid(value) {
            if self.first_fails_to_encode(value) {
                let e = choose|e: ErrorView| self.first().encodes(value, Err(e));
                self.first().lemma_encode_succeeds(value, Err(e));
            }
            assert(self.first().encodes(value, Ok(tree)));
            if out is Ok && self.first().decodes(tree, after, out) {
                self.first().lemma_decode_returns(value, tree, after, out);
            } else {
                let (middle, e) = choose|middle: Tree, e: ErrorView| #[trigger]
                    self.first().decodes(tree, middle, Err(e)) && self.second().decodes(
                        middle,
                        after,
                        out,
                    );
                self.first().lemma_decode_returns(value, tree, middle, Err(e));
            }
        } else {
            assert(self.second().encodes(value, Ok(tree)));
            if out is Ok && self.first().decodes(tree, after, out) {
            } else {
                let (middle, e) = choose|middle: Tree, e: ErrorView| #[trigger]
                    self.first().decodes(tree, middle, Err(e)) && self.second().decodes(
                        middle,
                        after,
                        out,
                    );
                self.second().lemma_decode_returns(value, tree, after, out);
            }
        }
    }
}

impl<T, C, F, OT, O> RoundTrip<T, OT, O> for OrElseCodec<T, C, F, OT, O> where
    T: DeepView,
    C: RoundTrip<T, OT, O>,
    F: Fn() -> T,
    O: CodecOps<OT>,
 {
    open spec fn valid(&self, value: T) -> bool {
        self.inner().valid(value)
    }

    proof fn lemma_encode_succeeds(&self, value: T, out: Result<Tree, ErrorView>) {
        self.inner().lemma_encode_succeeds(value, out);
    }

    proof fn lemma_decode_returns(
        &self,
        value: T,
        tree: Tree,
        after: Tree,
        out: Result<T, ErrorView>,
    ) {
        let found = choose|found: Result<T, ErrorView>| #[trigger]
            self.inner().decodes(tree, after, found) && match found {
                Ok(value) => out == Ok::<T, ErrorView>(value),
                Err(_) => out matches Ok(value) && yields(self.default_fn(), value),
            };
        self.inner().lemma_decode_returns(value, tree, after, found);
    }
}

impl<T, OT, O, C> RoundTrip<Box<T>, OT, O> for BoxCodec<T, OT, O, C> where
    T: DeepView,
    O: CodecOps<OT>,
    C: RoundTrip<T, OT, O>,
 {
    open spec fn valid(&self, value: Box<T>) -> bool {
        self.inner().valid(*value)
    }

    proof fn lemma_encode_succeeds(&self, value: Box<T>, out: Result<Tree, ErrorView>) {
        self.inner().lemma_encode_succeeds(*value, out);
    }

    proof fn lemma_decode_returns(
        &self,
        value: Box<T>,
        tree: Tree,
        after: Tree,
        out: Result<Box<T>, ErrorView>,
    ) {
        match out {
            Ok(boxed) => {
                self.inner().lemma_decode_returns(*value, tree, after, Ok(*boxed));
            },
            Err(e) => {
                self.inner().lemma_decode_returns(*value, tree, after, Err(e));
            },
        }
    }
}

/// Whether the union codec `codec` is to give `value` back: a left value
/// must be valid for the left codec; a right value must be valid for the
/// right codec, and the left codec must fail on what the right one wrote for
/// it and leave it as it was.
pub open spec fn valid_for_either<T, T2, Lc, Rc, OT, O>(
    codec: EitherCodec<T, T2, Lc, Rc, OT, O>,
    value: Either<T, T2>,
) -> bool where
    T: DeepView,
    T2: DeepView,
    Lc: RoundTrip<T, OT, O>,
    Rc: RoundTrip<T2, OT, O>,
    O: CodecOps<OT>,
 {
    match value {
        Either::Left(left) => codec.left().valid(left),
        Either::Right(right) => {
            &&& codec.right().valid(right)
            &&& forall|tree: Tree, middle: Tree, found: Result<T, ErrorView>|
                codec.right().encodes(right, Ok(tree)) && #[trigger] codec.left().decodes(
                    tree,
                    middle,
                    found,
                ) ==> found is Err && middle == tree
        },
    }
}

/// Whether `out` is a success in the arm of `value`, with a value that reads
/// as `value` does.
pub open spec fn returns_same_arm<T: DeepView, T2: DeepView>(
    out: Result<Either<T, T2>, ErrorView>,
    value: Either<T, T2>,
) -> bool {
    match (value, out) {
        (Either::Left(left), Ok(Either::Left(back))) => back.deep_view() == left.deep_view(),
        (Either::Right(right), Ok(Either::Right(back))) => back.deep_view() == right.deep_view(),
        _ => false,
    }
}

/// The round-trip law of the union codec: encoding a valid value succeeds,
/// and decoding what it gave returns the value, in its arm.
pub proof fn lemma_either_round_trip<T, T2, Lc, Rc, OT, O>(
    codec: EitherCodec<T, T2, Lc, Rc, OT, O>,
    value: Either<T, T2>,
    written: Result<Tree, ErrorView>,
    after: Tree,
    out: Result<Either<T, T2>, ErrorView>,
) where
    T: DeepView,
    T2: DeepView,
    Lc: RoundTrip<T, OT, O>,
    Rc: RoundTrip<T2, OT, O>,
    O: CodecOps<OT>,

    requires
        valid_for_either(codec, value),
        codec.encodes(value, written),
    ensures
        written matches Ok(tree) && (codec.decodes(tree, after, out) ==> returns_same_arm(
            out,
            value,
        )),
{
    match value {
        Either::Left(left) => {
            codec.left().lemma_encode_succeeds(left, written);
            let tree = written->Ok_0;
            if codec.decodes(tree, after, out) {
                match out {
                    Ok(Either::Left(back)) => {
                        codec.left().lemma_decode_returns(left, tree, after, Ok(back));
                    },
                    Ok(Either::Right(back)) => {
                        let (middle, e) = choose|middle: Tree, e: ErrorView| #[trigger]
                            codec.left().decodes(tree, middle, Err(e)) && codec.right().decodes(
                                middle,
                                after,
                                Ok(back),
                            );
                        codec.left().lemma_decode_returns(left, tree, middle, Err(e));
                    },
                    Err(failure) => {
                        let (middle, e) = choose|middle: Tree, e: ErrorView| #[trigger]
                            codec.left().decodes(tree, middle, Err(e)) && codec.right().decodes(
                                middle,
                                after,
                                Err(failure),
                            );
                        codec.left().lemma_decode_returns(left, tree, middle, Err(e));
                    },
                }
            }
        },
        Either::Right(right) => {
            codec.right().lemma_encode_succeeds(right, written);
            let tree = written->Ok_0;
            if codec.decodes(tree, after, out) {
                match out {
                    Ok(Either::Left(back)) => {
                        assert(codec.left().decodes(tree, after, Ok(back)));
                    },
                    Ok(Either::Right(back)) => {
                        let (middle, e) = choose|middle: Tree, e: ErrorView| #[trigger]
                            codec.left().decodes(tree, middle, Err(e)) && codec.right().decodes(
                                middle,
                                after,
                                Ok(back),
                            );
                        codec.right().lemma_decode_returns(right, tree, after, Ok(back));
                    },
                    Err(failure) => {
                        let (middle, e) = choose|middle: Tree, e: ErrorView| #[trigger]
                            codec.left().decodes(tree, middle, Err(e)) && codec.right().decodes(
                                middle,
                                after,
                                Err(failure),
                            );
                        codec.right().lemma_decode_returns(right, tree, after, Err(failure));
                    },
                }
            }
        },
    }
}

impl<T, C, R, OT, O> RoundTrip<T, OT, O> for RepairCodec<T, C, R, OT, O> where
    T: DeepView,
    C: RoundTrip<T, OT, O>,
    R: TypeRewriteRule<OT, O>,
    O: CodecOps<OT>,
 {
    /// The values valid for the inner codec whose encodings the rule turns
    /// into encodings of the same value: a rule made for older data must
    /// not spoil current data.
    open spec fn valid(&self, value: T) -> bool {
        &&& self.inner().valid(value)
        &&& forall|tree: Tree, repaired: Tree|
            self.inner().encodes(value, Ok(tree)) && #[trigger] self.rule().rewrites(
                tree,
                repaired,
            ) ==> self.inner().encodes(value, Ok(repaired))
    }

    proof fn lemma_encode_succeeds(&self, value: T, out: Result<Tree, ErrorView>) {
        self.inner().lemma_encode_succeeds(value, out);
    }

    proof fn lemma_decode_returns(
        &self,
        value: T,
        tree: Tree,
        after: Tree,
        out: Result<T, ErrorView>,
    ) {
        let repaired = choose|repaired: Tree| #[trigger]
            self.rule().rewrites(tree, repaired) && self.inner().decodes(repaired, after, out);
        self.inner().lemma_decode_returns(value, repaired, after, out);
    }
}

/// Whether `codec` cannot fail to encode `value`.
pub open spec fn writes<T, OT, O: CodecOps<OT>, C: Codec<T, OT, O>>(codec: C, value: T) -> bool {
    forall|out: Result<Tree, ErrorView>| #[trigger] codec.encodes(value, out) ==> out is Ok
}

/// Whether `codec` cannot but decode `tree` to `value`.
pub open spec fn reads_back<T: DeepView, OT, O: CodecOps<OT>, C: Codec<T, OT, O>>(
    codec: C,
    tree: Tree,
    value: T,
) -> bool {
    forall|after: Tree, out: Result<T, ErrorView>| #[trigger]
        codec.decodes(tree, after, out) ==> returns_same(out, value)
}

/// Whether, for every tree that `writer` may encode `value` to, the
/// representation selector `f` answers with a codec that decodes the tree
/// to `value`.
pub open spec fn answers_with_reader<T, OT, O, F>(
    f: F,
    writer: DynamicCodec<T, OT, O>,
    value: T,
) -> bool where
    T: DeepView,
    O: CodecOps<OT>,
    F: Fn(&O, &OT) -> DataResult<DynamicCodec<T, OT, O>>,
 {
    forall|tree: Tree, picked: DataResult<DynamicCodec<T, OT, O>>|
        writer.encodes(value, Ok(tree)) && #[trigger] selects_by_tree(f, tree, picked)
            ==> picked is Ok && reads_back(picked->Ok_0, tree, value)
}

/// Whether the two selectors of `codec` agree on `value`: the value
/// selector answers with a codec that encodes `value`, and for what that
/// codec wrote the representation selector answers with a codec that
/// decodes it to `value`.
pub open spec fn selectors_agree<T, OT, O, E, F>(
    codec: DispatchCodec<T, OT, O, E, F>,
    value: T,
) -> bool where
    T: DeepView,
    O: CodecOps<OT>,
    E: Fn(&T) -> DataResult<DynamicCodec<T, OT, O>>,
    F: Fn(&O, &OT) -> DataResult<DynamicCodec<T, OT, O>>,
 {
    forall|chosen: DataResult<DynamicCodec<T, OT, O>>| #[trigger]
        selects_by_value(codec.value_selector(), value, chosen) ==> chosen is Ok && writes(
            chosen->Ok_0,
            value,
        ) && answers_with_reader(codec.repr_selector(), chosen->Ok_0, value)
}

impl<T, OT, O, E, F> RoundTrip<T, OT, O> for DispatchCodec<T, OT, O, E, F> where
    T: DeepView,
    O: CodecOps<OT>,
    E: Fn(&T) -> DataResult<DynamicCodec<T, OT, O>>,
    F: Fn(&O, &OT) -> DataResult<DynamicCodec<T, OT, O>>,
 {
    /// The values on which the two selectors agree.
    open spec fn valid(&self, value: T) -> bool {
        selectors_agree(*self, value)
    }

    proof fn lemma_encode_succeeds(&self, value: T, out: Result<Tree, ErrorView>) {
        let chosen = choose|chosen: DataResult<DynamicCodec<T, OT, O>>| #[trigger]
            selects_by_value(self.value_selector(), value, chosen) && match chosen {
                Ok(codec) => codec.encodes(value, out),
                Err(e) => out == Err::<Tree, ErrorView>(e@),
            };
    }

    proof fn lemma_decode_returns(
        &self,
        value: T,
        tree: Tree,
        after: Tree,
        out: Result<T, ErrorView>,
    ) {
        let chosen = choose|chosen: DataResult<DynamicCodec<T, OT, O>>| #[trigger]
            selects_by_value(self.value_selector(), value, chosen) && match chosen {
                Ok(codec) => codec.encodes(value, Ok(tree)),
                Err(e) => Ok::<Tree, ErrorView>(tree) == Err::<Tree, ErrorView>(e@),
            };
        let picked = choose|picked: DataResult<DynamicCodec<T, OT, O>>| #[trigger]
            selects_by_tree(self.repr_selector(), tree, picked) && match picked {
                Ok(codec) => codec.decodes(tree, after, out),
                Err(e) => after == tree && out == Err::<T, ErrorView>(e@),
            };
        let writer = chosen->Ok_0;
        assert(writer.encodes(value, Ok(tree)));
        let reader = picked->Ok_0;
        assert(reader.decodes(tree, after, out));
    }
}

/// The relations of a codec that writes every value `v` as `tree_of(v)`
/// and reads every such tree back as a value that reads as `v` does.
pub open spec fn written_as<T: DeepView>(tree_of: spec_fn(T) -> Tree) -> Bounds<T> {
    Bounds {
        enc: |value: T, out: Result<Tree, ErrorView>| out == Ok::<Tree, ErrorView>(tree_of(value)),
        dec: |before: Tree, after: Tree, out: Result<T, ErrorView>|
            forall|value: T| before == #[trigger] tree_of(value) ==> returns_same(out, value),
    }
}

/// The round-trip law of recursive codecs: where the builder `f`, handed a
/// placeholder that writes every value `v` as `tree_of(v)` and reads it
/// back, builds a codec that does so too, the codec that `Codecs::recursive`
/// makes of `f` round-trips every value, however deep it nests.
pub proof fn lemma_recursive_round_trip<T: DeepView, OT, O: CodecOps<OT>, F, Oc, C>(
    f: F,
    codec: C,
    tree_of: spec_fn(T) -> Tree,
    value: T,
) where F: Fn(DynamicCodec<T, OT, O>) -> Oc, Oc: Codec<T, OT, O>, C: Codec<T, OT, O>
    requires
        forall|bounds: Bounds<T>| #[trigger]
            preserved_by::<T, OT, O, F, Oc>(f, bounds) ==> within_bounds(codec, bounds),
        preserved_by::<T, OT, O, F, Oc>(f, written_as(tree_of)),
    ensures
        round_trips(codec, value),
        forall|out: Result<Tree, ErrorView>| #[trigger]
            codec.encodes(value, out) ==> out == Ok::<Tree, ErrorView>(tree_of(value)),
{
    let bounds = written_as(tree_of);
    assert(within_bounds(codec, bounds));
    assert forall|out: Result<Tree, ErrorView>| #[trigger]
        codec.encodes(value, out) implies out == Ok::<Tree, ErrorView>(tree_of(value)) by {
        assert((bounds.enc)(value, out));
    }
    assert forall|tree: Tree, after: Tree, out: Result<T, ErrorView>|
        codec.encodes(value, Ok(tree)) && #[trigger] codec.decodes(
            tree,
            after,
            out,
        ) implies returns_same(out, value) by {
        assert((bounds.enc)(value, Ok(tree)));
        assert((bounds.dec)(tree, after, out));
    }
}

} // verus!
