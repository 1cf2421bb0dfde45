//! Codecs of the primitive shapes, and the combinators over codecs.

use crate::number::{number_of, F64Convertable, Number};
use crate::result::{DataError, DataResult, ErrorView, Shape};
use crate::serialization::builtins::interval::{within, Interval};
use crate::serialization::ops::{mismatch, pairs_of, trees_of, CodecOps};
use crate::serialization::views::{CodecViews, ListView, MapLensMut, MapView, MapViewMut};
use crate::serialization::{decoded, encoded, mirrors, Codec, DefaultCodec};
use crate::tree::{map_of_pairs, Tree};
use either::Either;
use std::marker::PhantomData;
use std::sync::Arc;
use vstd::prelude::*;

verus! {

/// The sum type `either::Either`, with its two variants `Left` and `Right`
/// as that crate defines them. Nothing is claimed of it beyond its shape.
#[verifier::external_type_specification]
#[verifier::reject_recursive_types(L)]
#[verifier::reject_recursive_types(R)]
pub struct ExEither<L, R>(Either<L, R>);

/// The codec of a binary64 number: a number node holding it.
pub struct F64Codec<OT, O: CodecOps<OT>> {
    _phantom: PhantomData<(OT, O)>,
}

impl<OT, O: CodecOps<OT>> Codec<Number, OT, O> for F64Codec<OT, O> {
    open spec fn encodes(&self, value: Number, out: Result<Tree, ErrorView>) -> bool {
        out == Ok::<Tree, ErrorView>(Tree::Number(value))
    }

    open spec fn decodes(&self, before: Tree, after: Tree, out: Result<Number, ErrorView>) -> bool {
        &&& after == before
        &&& match before {
            Tree::Number(n) => out == Ok::<Number, ErrorView>(n),
            other => out == Err::<Number, ErrorView>(mismatch(Shape::Number, other)),
        }
    }

    fn encode(&self, ops: &O, value: &Number) -> (r: DataResult<OT>) {
        Ok(ops.create_number(value))
    }

    fn decode(&self, ops: &O, value: &mut OT) -> (r: DataResult<Number>) {
        ops.get_number(value)
    }
}

impl<OT, O: CodecOps<OT>> DefaultCodec<OT, O> for Number {
    type Default = F64Codec<OT, O>;

    fn codec() -> F64Codec<OT, O> {
        F64Codec { _phantom: PhantomData }
    }
}

/// The codec of a string: a string node holding its text.
pub struct StringCodec<OT, O: CodecOps<OT>> {
    _phantom: PhantomData<(OT, O)>,
}

impl<OT, O: CodecOps<OT>> Codec<String, OT, O> for StringCodec<OT, O> {
    open spec fn encodes(&self, value: String, out: Result<Tree, ErrorView>) -> bool {
        out == Ok::<Tree, ErrorView>(Tree::String(value@))
    }

    open spec fn decodes(&self, before: Tree, after: Tree, out: Result<String, ErrorView>) -> bool {
        &&& after == before
        &&& match before {
            Tree::String(s) => out matches Ok(text) && text@ == s,
            other => out == Err::<String, ErrorView>(mismatch(Shape::String, other)),
        }
    }

    fn encode(&self, ops: &O, value: &String) -> (r: DataResult<OT>) {
        Ok(ops.create_string(value.as_str()))
    }

    fn decode(&self, ops: &O, value: &mut OT) -> (r: DataResult<String>) {
        ops.get_string(value)
    }
}

impl<OT, O: CodecOps<OT>> DefaultCodec<OT, O> for String {
    type Default = StringCodec<OT, O>;

    fn codec() -> StringCodec<OT, O> {
        StringCodec { _phantom: PhantomData }
    }
}

/// The codec of a truth value: a boolean node holding it.
pub struct BoolCodec<OT, O: CodecOps<OT>> {
    _phantom: PhantomData<(OT, O)>,
}

impl<OT, O: CodecOps<OT>> Codec<bool, OT, O> for BoolCodec<OT, O> {
    open spec fn encodes(&self, value: bool, out: Result<Tree, ErrorView>) -> bool {
        out == Ok::<Tree, ErrorView>(Tree::Boolean(value))
    }

    open spec fn decodes(&self, before: Tree, after: Tree, out: Result<bool, ErrorView>) -> bool {
        &&& after == before
        &&& match before {
            Tree::Boolean(b) => out == Ok::<bool, ErrorView>(b),
            other => out == Err::<bool, ErrorView>(mismatch(Shape::Boolean, other)),
        }
    }

    fn encode(&self, ops: &O, value: &bool) -> (r: DataResult<OT>) {
        Ok(ops.create_boolean(value))
    }

    fn decode(&self, ops: &O, value: &mut OT) -> (r: DataResult<bool>) {
        ops.get_boolean(value)
    }
}

impl<OT, O: CodecOps<OT>> DefaultCodec<OT, O> for bool {
    type Default = BoolCodec<OT, O>;

    fn codec() -> BoolCodec<OT, O> {
        BoolCodec { _phantom: PhantomData }
    }
}

/// The error of a value outside the bounds of a bounded codec.
pub open spec fn out_of_bounds() -> ErrorView {
    ErrorView::ValidationFailed("value must be within the bounds"@)
}

/// A codec that lets only the values of an interval through, in both
/// directions.
pub struct BoundedCodec<T: PartialOrd, C: Codec<T, OT, O>, OT, O: CodecOps<OT>> {
    codec: C,
    range: Interval<T>,
    _phantom: PhantomData<(OT, O)>,
}

impl<T: PartialOrd, C: Codec<T, OT, O>, OT, O: CodecOps<OT>> BoundedCodec<T, C, OT, O> {
    /// The codec that does the work.
    pub closed spec fn inner(&self) -> C {
        self.codec
    }

    /// The range that values are held to.
    pub closed spec fn range(&self) -> Interval<T> {
        self.range
    }

    /// The codec `codec` held to `range`.
    pub fn new(codec: C, range: Interval<T>) -> (r: Self)
        ensures
            r.inner() == codec,
            r.range() == range,
            r.defined(),
    {
        BoundedCodec { codec, range, _phantom: PhantomData }
    }
}

impl<T: PartialOrd, C: Codec<T, OT, O>, OT, O: CodecOps<OT>> BoundedCodec<
    T,
    C,
    OT,
    O,
> {
    /// Whether encoding `value` may end in `out`: a value outside the range
    /// is rejected, and a value inside it goes to the inner codec.
    pub open spec fn may_encode(&self, value: T, out: Result<Tree, ErrorView>) -> bool {
        ||| within(self.range(), value, true) && self.inner().encodes(value, out)
        ||| within(self.range(), value, false) && out == Err::<Tree, ErrorView>(out_of_bounds())
    }

    /// Whether decoding may end in `out`: a failure of the inner codec is
    /// passed on, and what it decoded is rejected where it lies outside the
    /// range.
    pub open spec fn may_decode(&self, before: Tree, after: Tree, out: Result<T, ErrorView>) -> bool {
        exists|found: Result<T, ErrorView>|
            #[trigger] self.inner().decodes(before, after, found) && match found {
                Ok(value) => {
                    ||| within(self.range(), value, true) && out == Ok::<T, ErrorView>(value)
                    ||| within(self.range(), value, false) && out == Err::<T, ErrorView>(
                        out_of_bounds(),
                    )
                },
                Err(e) => out == Err::<T, ErrorView>(e),
            }
    }

    /// Whether the relations of the codec are `may_encode` and `may_decode`.
    pub open spec fn defined(&self) -> bool {
        &&& forall|value: T, out: Result<Tree, ErrorView>| #[trigger]
            self.encodes(value, out) <==> self.may_encode(value, out)
        &&& forall|before: Tree, after: Tree, out: Result<T, ErrorView>| #[trigger]
            self.decodes(before, after, out) <==> self.may_decode(before, after, out)
    }
}

impl<T: PartialOrd, C: Codec<T, OT, O>, OT, O: CodecOps<OT>> Codec<T, OT, O> for BoundedCodec<
    T,
    C,
    OT,
    O,
> {
    open spec fn encodes(&self, value: T, out: Result<Tree, ErrorView>) -> bool {
        self.may_encode(value, out)
    }

    open spec fn decodes(&self, before: Tree, after: Tree, out: Result<T, ErrorView>) -> bool {
        self.may_decode(before, after, out)
    }

    fn encode(&self, ops: &O, value: &T) -> (r: DataResult<OT>) {
        let inside = self.range.contains(value);
        assert(within(self.range(), *value, inside));
        if !inside {
            Err(DataError::new_custom("value must be within the bounds"))
        } else {
            self.codec.encode(ops, value)
        }
    }

    fn decode(&self, ops: &O, value: &mut OT) -> (r: DataResult<T>) {
        let ghost before = ops.tree(*value);
        let result = self.codec.decode(ops, value);
        assert(self.inner().decodes(before, ops.tree(*value), decoded(result)));
        match result {
            Ok(found) => {
                let inside = self.range.contains(&found);
                assert(within(self.range(), found, inside));
                if inside {
                    Ok(found)
                } else {

                    Err(DataError::new_custom("value must be within the bounds"))
                }
            },
            Err(e) => Err(e),
        }
    }
}

/// Whether `codec` may encode `value` successfully.
pub open spec fn can_encode<T, OT, O: CodecOps<OT>, C: Codec<T, OT, O>>(codec: C, value: T) -> bool {
    exists|tree: Tree| codec.encodes(value, Ok(tree))
}

/// Whether `codec` may decode `tree` to `value`.
pub open spec fn decodes_to<T, OT, O: CodecOps<OT>, C: Codec<T, OT, O>>(
    codec: C,
    tree: Tree,
    value: T,
) -> bool {
    exists|after: Tree| codec.decodes(tree, after, Ok(value))
}

/// Whether `codec` may decode `tree` successfully.
pub open spec fn can_decode<T, OT, O: CodecOps<OT>, C: Codec<T, OT, O>>(
    codec: C,
    tree: Tree,
) -> bool {
    exists|value: T| decodes_to(codec, tree, value)
}

/// Whether `codec` may fail on `tree` with `error`.
pub open spec fn fails_on<T, OT, O: CodecOps<OT>, C: Codec<T, OT, O>>(
    codec: C,
    tree: Tree,
    error: ErrorView,
) -> bool {
    exists|after: Tree| codec.decodes(tree, after, Err(error))
}

/// Whether `error` is what encoding the first failing element of `values`
/// may give, the elements before it having been encoded.
pub open spec fn first_encode_failure<T, OT, O: CodecOps<OT>, C: Codec<T, OT, O>>(
    codec: C,
    values: Seq<T>,
    error: ErrorView,
) -> bool {
    exists|i: int|
        {
            &&& 0 <= i < values.len()
            &&& #[trigger] codec.encodes(values[i], Err(error))
            &&& forall|j: int| 0 <= j < i ==> #[trigger] can_encode(codec, values[j])
        }
}

/// Whether `error` is what decoding the first failing item of `items` may
/// give, the items before it having been decoded.
pub open spec fn first_decode_failure<T, OT, O: CodecOps<OT>, C: Codec<T, OT, O>>(
    codec: C,
    items: Seq<Tree>,
    error: ErrorView,
) -> bool {
    exists|i: int|
        {
            &&& 0 <= i < items.len()
            &&& #[trigger] fails_on(codec, items[i], error)
            &&& forall|j: int| 0 <= j < i ==> #[trigger] can_decode(codec, items[j])
        }
}

/// The codec of a vector: a list node with one item for each element, in
/// order. The first element that fails ends the whole operation with its
/// error.
pub struct ListCodec<T, C: Codec<T, OT, O>, OT, O: CodecOps<OT>> {
    inner: C,
    _phantom: PhantomData<(T, OT, O)>,
}

impl<T, C: Codec<T, OT, O>, OT, O: CodecOps<OT>> ListCodec<T, C, OT, O> {
    /// The codec of the elements.
    pub closed spec fn inner(&self) -> C {
        self.inner
    }

    /// The codec of vectors whose elements `inner` handles.
    pub fn new(inner: C) -> (r: Self)
        ensures
            r.inner() == inner,
            r.defined(),
    {
        ListCodec { inner, _phantom: PhantomData }
    }
}

impl<T, C: Codec<T, OT, O>, OT, O: CodecOps<OT>> ListCodec<T, C, OT, O> {
    /// Whether encoding `value` may end in `out`: a list of the encoded
    /// elements, in order, or the failure of the first element that fails.
    pub open spec fn may_encode(&self, value: Vec<T>, out: Result<Tree, ErrorView>) -> bool {
        match out {
            Ok(tree) => {
                &&& tree is List
                &&& tree.items().len() == value@.len()
                &&& forall|i: int|
                    0 <= i < value@.len() ==> #[trigger] self.inner().encodes(
                        value@[i],
                        Ok(tree.items()[i]),
                    )
            },
            Err(e) => first_encode_failure(self.inner(), value@, e),
        }
    }

    /// Whether decoding may end in `out`: the decoded items, in order, or
    /// the failure of the first item that fails. The node stays as it was.
    pub open spec fn may_decode(&self, before: Tree, after: Tree, out: Result<Vec<T>, ErrorView>) -> bool {
        &&& after == before
        &&& match before {
            Tree::List(items) => match out {
                Ok(values) => {
                    &&& values@.len() == items.len()
                    &&& forall|i: int|
                        0 <= i < items.len() ==> #[trigger] decodes_to(
                            self.inner(),
                            items[i],
                            values@[i],
                        )
                },
                Err(e) => first_decode_failure(self.inner(), items, e),
            },
            other => out == Err::<Vec<T>, ErrorView>(mismatch(Shape::List, other)),
        }
    }

    /// Whether the relations of the codec are `may_encode` and `may_decode`.
    pub open spec fn defined(&self) -> bool {
        &&& forall|value: Vec<T>, out: Result<Tree, ErrorView>| #[trigger]
            self.encodes(value, out) <==> self.may_encode(value, out)
        &&& forall|before: Tree, after: Tree, out: Result<Vec<T>, ErrorView>| #[trigger]
            self.decodes(before, after, out) <==> self.may_decode(before, after, out)
    }
}

impl<T, C: Codec<T, OT, O>, OT, O: CodecOps<OT>> Codec<Vec<T>, OT, O> for ListCodec<T, C, OT, O> {
    open spec fn encodes(&self, value: Vec<T>, out: Result<Tree, ErrorView>) -> bool {
        self.may_encode(value, out)
    }

    open spec fn decodes(&self, before: Tree, after: Tree, out: Result<Vec<T>, ErrorView>) -> bool {
        self.may_decode(before, after, out)
    }

    fn encode(&self, ops: &O, value: &Vec<T>) -> (r: DataResult<OT>) {
        let mut list: Vec<OT> = Vec::new();
        let mut i: usize = 0;
        while i < value.len()
            invariant
                i <= value.len(),
                list.len() == i,
                forall|k: int|
                    0 <= k < i ==> #[trigger] self.inner().encodes(value@[k], Ok(ops.tree(list@[k]))),
            decreases value.len() - i,
        {
            let item = self.inner.encode(ops, &value[i]);
            match item {
                Ok(node) => {
                    list.push(node);
                },
                Err(e) => {
                    proof {
                        assert(self.inner().encodes(value@[i as int], Err(e@)));
                        assert forall|j: int| 0 <= j < i implies #[trigger] can_encode(
                            self.inner(),
                            value@[j],
                        ) by {
                            assert(self.inner().encodes(value@[j], Ok(ops.tree(list@[j]))));
                        }
                    }
                    return Err(e);
                },
            }
            i += 1;
        }
        let ghost nodes = list@;
        let node = ops.create_list(list);
        proof {
            let tree = ops.tree(node);
            assert forall|k: int| 0 <= k < value@.len() implies #[trigger] self.inner().encodes(
                value@[k],
                Ok(tree.items()[k]),
            ) by {
                assert(tree.items()[k] == ops.tree(nodes[k]));
            }
        }
        Ok(node)
    }

    fn decode(&self, ops: &O, value: &mut OT) -> (r: DataResult<Vec<T>>) {
        let nodes = match ops.get_list(value) {
            Ok(list) => list.into_iter(),
            Err(e) => {
                return Err(e);
            },
        };
        let ghost items = ops.tree(*value).items();
        assert(items.len() == nodes@.len());
        let mut values: Vec<T> = Vec::new();
        for node in iter: nodes
            invariant
                iter.seq() == nodes@,
                *value == *old(value),
                ops.tree(*value) == Tree::List(items),
                items == trees_of(|n: OT| ops.tree(n), nodes@),
                values.len() == iter.index(),
                forall|k: int|
                    0 <= k < iter.index() ==> #[trigger] decodes_to(
                        self.inner(),
                        items[k],
                        values@[k],
                    ),
        {
            let ghost k = iter.index() as int;
            let mut node = node;
            let ghost before = ops.tree(node);
            assert(before == items[k]);
            let found = self.inner.decode(ops, &mut node);
            assert(self.inner().decodes(before, ops.tree(node), decoded(found)));
            match found {
                Ok(element) => {
                    values.push(element);
                },
                Err(e) => {
                    proof {
                        assert(fails_on(self.inner(), items[k], e@));
                        assert forall|j: int| 0 <= j < k implies #[trigger] can_decode(
                            self.inner(),
                            items[j],
                        ) by {
                            assert(decodes_to(self.inner(), items[j], values@[j]));
                        }
                        assert(first_decode_failure::<T, OT, O, C>(self.inner(), items, e@));
                    }
                    return Err(e);
                },
            }
        }
        Ok(values)
    }
}

/// Whether the function `f` may give `b` for `a`.
pub open spec fn maps_to<A, B, F: Fn(&A) -> B>(f: F, a: A, b: B) -> bool {
    call_ensures(f, (&a,), b)
}

/// A codec of `NT` made from a codec of `OLT` and a pair of functions
/// between the two types.
#[verifier::reject_recursive_types(OLT)]
#[verifier::reject_recursive_types(NT)]
pub struct XMapCodec<OLT, NT, C, F1, F2, OT, O> where
    C: Codec<OLT, OT, O>,
    F1: Fn(&OLT) -> NT,
    F2: Fn(&NT) -> OLT,
    O: CodecOps<OT>,
 {
    inner: C,
    f1: F1,
    f2: F2,
    _phantom: PhantomData<(OLT, NT, OT, O)>,
}

impl<OLT, NT, C, F1, F2, OT, O> XMapCodec<OLT, NT, C, F1, F2, OT, O> where
    C: Codec<OLT, OT, O>,
    F1: Fn(&OLT) -> NT,
    F2: Fn(&NT) -> OLT,
    O: CodecOps<OT>,
 {
    #[verifier::type_invariant]
    spec fn functions_are_total(self) -> bool {
        &&& forall|x: &OLT| call_requires(self.f1, (x,))
        &&& forall|y: &NT| call_requires(self.f2, (y,))
    }

    /// The codec that does the work.
    pub closed spec fn inner(&self) -> C {
        self.inner
    }

    /// The function from the inner type to the new one.
    pub closed spec fn to_new(&self) -> F1 {
        self.f1
    }

    /// The function from the new type to the inner one.
    pub closed spec fn from_new(&self) -> F2 {
        self.f2
    }

    /// The codec that applies `from_new` before `inner` encodes and `to_new`
    /// after `inner` has decoded. Both functions must accept every input.
    pub fn new(inner: C, to_new: F1, from_new: F2) -> (r: Self)
        requires
            forall|x: &OLT| call_requires(to_new, (x,)),
            forall|y: &NT| call_requires(from_new, (y,)),
        ensures
            r.inner() == inner,
            r.to_new() == to_new,
            r.from_new() == from_new,
            r.defined(),
    {
        XMapCodec { inner, f1: to_new, f2: from_new, _phantom: PhantomData }
    }

    /// Whether encoding `value` may end in `out`: the inner codec encodes
    /// what the function to the inner type makes of `value`.
    pub open spec fn may_encode(&self, value: NT, out: Result<Tree, ErrorView>) -> bool {
        exists|x: OLT| #[trigger] maps_to(self.from_new(), value, x) && self.inner().encodes(x, out)
    }

    /// Whether decoding may end in `out`: a failure of the inner codec is
    /// passed on, and what it decoded goes through the function to the new
    /// type.
    pub open spec fn may_decode(
        &self,
        before: Tree,
        after: Tree,
        out: Result<NT, ErrorView>,
    ) -> bool {
        exists|found: Result<OLT, ErrorView>|
            #[trigger] self.inner().decodes(before, after, found) && match found {
                Ok(x) => out matches Ok(value) && maps_to(self.to_new(), x, value),
                Err(e) => out == Err::<NT, ErrorView>(e),
            }
    }

    /// Whether the relations of the codec are `may_encode` and `may_decode`.
    pub open spec fn defined(&self) -> bool {
        &&& forall|value: NT, out: Result<Tree, ErrorView>| #[trigger]
            self.encodes(value, out) <==> self.may_encode(value, out)
        &&& forall|before: Tree, after: Tree, out: Result<NT, ErrorView>| #[trigger]
            self.decodes(before, after, out) <==> self.may_decode(before, after, out)
    }
}

impl<OLT, NT, C, F1, F2, OT, O> Codec<NT, OT, O> for XMapCodec<OLT, NT, C, F1, F2, OT, O> where
    C: Codec<OLT, OT, O>,
    F1: Fn(&OLT) -> NT,
    F2: Fn(&NT) -> OLT,
    O: CodecOps<OT>,
 {
    open spec fn encodes(&self, value: NT, out: Result<Tree, ErrorView>) -> bool {
        self.may_encode(value, out)
    }

    open spec fn decodes(&self, before: Tree, after: Tree, out: Result<NT, ErrorView>) -> bool {
        self.may_decode(before, after, out)
    }

    fn encode(&self, ops: &O, value: &NT) -> (r: DataResult<OT>) {
        proof {
            use_type_invariant(self);
        }
        let x = (self.f2)(value);
        assert(maps_to(self.from_new(), *value, x));
        self.inner.encode(ops, &x)
    }

    fn decode(&self, ops: &O, value: &mut OT) -> (r: DataResult<NT>) {
        proof {
            use_type_invariant(self);
        }
        let ghost before = ops.tree(*value);
        let found = self.inner.decode(ops, value);
        assert(self.inner().decodes(before, ops.tree(*value), decoded(found)));
        match found {
            Ok(x) => Ok((self.f1)(&x)),
            Err(e) => Err(e),
        }
    }
}

/// What decoding the value under `key` of a map with `codec` may give: the
/// outcome `out`, and the map `after` with the decoded value's node as the
/// codec left it. A missing key is an error and leaves the map as it was.
pub open spec fn decodes_entry<T, OT, O: CodecOps<OT>, C: Codec<T, OT, O>>(
    codec: C,
    entries: Map<Seq<char>, Tree>,
    key: Seq<char>,
    after: Map<Seq<char>, Tree>,
    out: Result<T, ErrorView>,
) -> bool {
    if entries.contains_key(key) {
        exists|child: Tree|
            #[trigger] codec.decodes(entries[key], child, out) && after == entries.insert(
                key,
                child,
            )
    } else {
        after == entries && out == Err::<T, ErrorView>(ErrorView::KeyNotFound(key))
    }
}

/// Decodes the value under `key` of the map behind `lens` with `codec`.
pub fn decode_entry<T, OT, O: CodecOps<OT>, C: Codec<T, OT, O>>(
    codec: &C,
    ops: &O,
    lens: &mut MapLensMut<'_, OT, O>,
    key: &str,
) -> (r: DataResult<T>)
    requires
        old(lens).wf(),
        old(lens).ops() == ops,
    ensures
        final(lens).wf(),
        final(lens).ops() == ops,
        *final(final(lens).slot()) == *final(old(lens).slot()),
        decodes_entry(*codec, old(lens).entries(), key@, final(lens).entries(), decoded(r)),
{
    match lens.get_mut(key) {
        Ok(node) => {
            let ghost before = ops.tree(*node);
            let found = codec.decode(ops, node);
            assert(codec.decodes(before, ops.tree(*node), decoded(found)));
            found
        },
        Err(e) => Err(e),
    }
}

/// The key of the first component of a pair.
pub open spec fn left_key() -> Seq<char> {
    "left"@
}

/// The key of the second component of a pair.
pub open spec fn right_key() -> Seq<char> {
    "right"@
}

/// The tree of a pair whose components were encoded as `left` and `right`.
pub open spec fn pair_tree(left: Tree, right: Tree) -> Tree {
    Tree::Mapping(Map::empty().insert(left_key(), left).insert(right_key(), right))
}

/// The codec of a pair: a map node with the first component under `left`
/// and the second under `right`.
pub struct PairCodec<L, R, Lc: Codec<L, OT, O>, Rc: Codec<R, OT, O>, OT, O: CodecOps<OT>> {
    left: Lc,
    right: Rc,
    _phantom: PhantomData<(L, R, OT, O)>,
}

impl<L, R, Lc: Codec<L, OT, O>, Rc: Codec<R, OT, O>, OT, O: CodecOps<OT>> PairCodec<
    L,
    R,
    Lc,
    Rc,
    OT,
    O,
> {
    /// The codec of the first component.
    pub closed spec fn left(&self) -> Lc {
        self.left
    }

    /// The codec of the second component.
    pub closed spec fn right(&self) -> Rc {
        self.right
    }

    /// The codec of pairs whose components `left` and `right` handle.
    pub fn new(left: Lc, right: Rc) -> (r: Self)
        ensures
            r.left() == left,
            r.right() == right,
            r.defined(),
    {
        PairCodec { left, right, _phantom: PhantomData }
    }

    /// What decoding may give once the first component has been decoded to
    /// `first`, leaving the entries `entries`.
    pub open spec fn decodes_second(
        &self,
        entries: Map<Seq<char>, Tree>,
        first: L,
        after: Tree,
        out: Result<(L, R), ErrorView>,
    ) -> bool {
        exists|last: Map<Seq<char>, Tree>, found: Result<R, ErrorView>|
            #[trigger] decodes_entry(self.right(), entries, right_key(), last, found) && after
                == Tree::Mapping(last) && match found {
                Ok(second) => out == Ok::<(L, R), ErrorView>((first, second)),
                Err(e) => out == Err::<(L, R), ErrorView>(e),
            }
    }

    /// What decoding a map with the entries `entries` may give.
    pub open spec fn decodes_first(
        &self,
        entries: Map<Seq<char>, Tree>,
        after: Tree,
        out: Result<(L, R), ErrorView>,
    ) -> bool {
        exists|next: Map<Seq<char>, Tree>, found: Result<L, ErrorView>|
            #[trigger] decodes_entry(self.left(), entries, left_key(), next, found) && match found {
                Ok(first) => self.decodes_second(next, first, after, out),
                Err(e) => after == Tree::Mapping(next) && out == Err::<(L, R), ErrorView>(e),
            }
    }
}

impl<L, R, Lc: Codec<L, OT, O>, Rc: Codec<R, OT, O>, OT, O: CodecOps<OT>> PairCodec<L, R, Lc, Rc, OT, O> {
    /// Whether encoding `value` may end in `out`: the map of the two
    /// encoded components, or the first failure among them.
    pub open spec fn may_encode(&self, value: (L, R), out: Result<Tree, ErrorView>) -> bool {
        match out {
            Ok(tree) => exists|left: Tree, right: Tree|
                {
                    &&& #[trigger] pair_tree(left, right) == tree
                    &&& self.left().encodes(value.0, Ok(left))
                    &&& self.right().encodes(value.1, Ok(right))
                },
            Err(e) => {
                ||| self.left().encodes(value.0, Err(e))
                ||| can_encode(self.left(), value.0) && self.right().encodes(value.1, Err(e))
            },
        }
    }

    /// Whether decoding may end in `out`: the two components are decoded in
    /// place, the first one first, and what is not a map is rejected.
    pub open spec fn may_decode(&self, before: Tree, after: Tree, out: Result<(L, R), ErrorView>) -> bool {
        match before {
            Tree::Mapping(entries) => self.decodes_first(entries, after, out),
            other => after == before && out == Err::<(L, R), ErrorView>(
                mismatch(Shape::Mapping, other),
            ),
        }
    }

    /// Whether the relations of the codec are `may_encode` and `may_decode`.
    pub open spec fn defined(&self) -> bool {
        &&& forall|value: (L, R), out: Result<Tree, ErrorView>| #[trigger]
            self.encodes(value, out) <==> self.may_encode(value, out)
        &&& forall|before: Tree, after: Tree, out: Result<(L, R), ErrorView>| #[trigger]
            self.decodes(before, after, out) <==> self.may_decode(before, after, out)
    }
}

impl<L, R, Lc: Codec<L, OT, O>, Rc: Codec<R, OT, O>, OT, O: CodecOps<OT>> Codec<
    (L, R),
    OT,
    O,
> for PairCodec<L, R, Lc, Rc, OT, O> {
    open spec fn encodes(&self, value: (L, R), out: Result<Tree, ErrorView>) -> bool {
        self.may_encode(value, out)
    }

    open spec fn decodes(&self, before: Tree, after: Tree, out: Result<(L, R), ErrorView>) -> bool {
        self.may_decode(before, after, out)
    }

    fn encode(&self, ops: &O, value: &(L, R)) -> (r: DataResult<OT>) {
        let left = match self.left.encode(ops, &value.0) {
            Ok(node) => node,
            Err(e) => {
                return Err(e);
            },
        };
        assert(self.left().encodes(value.0, Ok(ops.tree(left))));
        let right = match self.right.encode(ops, &value.1) {
            Ok(node) => node,
            Err(e) => {
                return Err(e);
            },
        };
        let ghost left_tree = ops.tree(left);
        let ghost right_tree = ops.tree(right);
        let mut pairs: Vec<(String, OT)> = Vec::new();
        pairs.push(("left".to_owned(), left));
        pairs.push(("right".to_owned(), right));
        let node = ops.create_map(pairs);
        proof {
            let modelled = pairs_of(|n: OT| ops.tree(n), pairs@);
            assert(modelled.drop_last().drop_last() =~= Seq::empty());
            assert(modelled.drop_last().last() == (left_key(), left_tree));
            assert(modelled.last() == (right_key(), right_tree));
            reveal_with_fuel(map_of_pairs, 3);
            assert(ops.tree(node) == pair_tree(left_tree, right_tree));
        }
        Ok(node)
    }

    fn decode(&self, ops: &O, value: &mut OT) -> (r: DataResult<(L, R)>) {
        let mut lens = match ops.get_map_mut(value) {
            Ok(lens) => lens,
            Err(e) => {
                return Err(e);
            },
        };
        let ghost entries = lens.entries();
        let first = match decode_entry(&self.left, ops, &mut lens, "left") {
            Ok(first) => first,
            Err(e) => {
                proof {
                    lens.lemma_settled();
                    assert(ops.tree(*value) == Tree::Mapping(lens.entries()));
                    assert(decodes_entry(
                        self.left(),
                        entries,
                        left_key(),
                        lens.entries(),
                        Err::<L, ErrorView>(e@),
                    ));
                    assert(self.decodes_first(entries, ops.tree(*value), Err(e@)));
                }
                return Err(e);
            },
        };
        let ghost next = lens.entries();
        let found = decode_entry(&self.right, ops, &mut lens, "right");
        let ghost second = decoded(found);
        proof {
            lens.lemma_settled();
            assert(ops.tree(*value) == Tree::Mapping(lens.entries()));
            assert(decodes_entry(self.right(), next, right_key(), lens.entries(), second));
            let out: Result<(L, R), ErrorView> = match second {
                Ok(second) => Ok((first, second)),
                Err(e) => Err(e),
            };
            assert(self.decodes_second(next, first, ops.tree(*value), out));
            assert(decodes_entry(self.left(), entries, left_key(), next, Ok::<L, ErrorView>(first)));
            assert(self.decodes_first(entries, ops.tree(*value), out));
        }
        match found {
            Ok(second) => Ok((first, second)),
            Err(e) => Err(e),
        }
    }
}

/// A codec that falls back to a second codec where the first fails, in
/// either direction. Where both fail, the error is that of the second.
pub struct TryElseCodec<T, Lc: Codec<T, OT, O>, Rc: Codec<T, OT, O>, OT, O: CodecOps<OT>> {
    lc: Lc,
    rc: Rc,
    _phantom: PhantomData<(T, OT, O)>,
}

impl<T, Lc: Codec<T, OT, O>, Rc: Codec<T, OT, O>, OT, O: CodecOps<OT>> TryElseCodec<
    T,
    Lc,
    Rc,
    OT,
    O,
> {
    /// The codec that is tried first.
    pub closed spec fn first(&self) -> Lc {
        self.lc
    }

    /// The codec that is tried where the first fails.
    pub closed spec fn second(&self) -> Rc {
        self.rc
    }

    /// The codec that tries `first`, then `second`.
    pub fn new(first: Lc, second: Rc) -> (r: Self)
        ensures
            r.first() == first,
            r.second() == second,
            r.defined(),
    {
        TryElseCodec { lc: first, rc: second, _phantom: PhantomData }
    }

    /// Whether the first codec may fail to encode `value`.
    pub open spec fn first_fails_to_encode(&self, value: T) -> bool {
        exists|e: ErrorView| self.first().encodes(value, Err(e))
    }

    /// Whether the first codec may fail on `before`, leaving `middle`, and
    /// the second may then end in `out`, leaving `after`.
    pub open spec fn falls_back(
        &self,
        before: Tree,
        after: Tree,
        out: Result<T, ErrorView>,
    ) -> bool {
        exists|middle: Tree, e: ErrorView|
            #[trigger] self.first().decodes(before, middle, Err(e)) && self.second().decodes(
                middle,
                after,
                out,
            )
    }
}

impl<T, Lc: Codec<T, OT, O>, Rc: Codec<T, OT, O>, OT, O: CodecOps<OT>> TryElseCodec<T, Lc, Rc, OT, O> {
    /// Whether encoding `value` may end in `out`: a success of the first
    /// codec, or where it fails, what the second codec does.
    pub open spec fn may_encode(&self, value: T, out: Result<Tree, ErrorView>) -> bool {
        ||| out is Ok && self.first().encodes(value, out)
        ||| self.first_fails_to_encode(value) && self.second().encodes(value, out)
    }

    /// Whether decoding may end in `out`: a success of the first codec, or
    /// where it fails, what the second codec does with the node as the first
    /// one left it.
    pub open spec fn may_decode(&self, before: Tree, after: Tree, out: Result<T, ErrorView>) -> bool {
        ||| out is Ok && self.first().decodes(before, after, out)
        ||| self.falls_back(before, after, out)
    }

    /// Whether the relations of the codec are `may_encode` and `may_decode`.
    pub open spec fn defined(&self) -> bool {
        &&& forall|value: T, out: Result<Tree, ErrorView>| #[trigger]
            self.encodes(value, out) <==> self.may_encode(value, out)
        &&& forall|before: Tree, after: Tree, out: Result<T, ErrorView>| #[trigger]
            self.decodes(before, after, out) <==> self.may_decode(before, after, out)
    }
}

impl<T, Lc: Codec<T, OT, O>, Rc: Codec<T, OT, O>, OT, O: CodecOps<OT>> Codec<
    T,
    OT,
    O,
> for TryElseCodec<T, Lc, Rc, OT, O> {
    open spec fn encodes(&self, value: T, out: Result<Tree, ErrorView>) -> bool {
        self.may_encode(value, out)
    }

    open spec fn decodes(&self, before: Tree, after: Tree, out: Result<T, ErrorView>) -> bool {
        self.may_decode(before, after, out)
    }

    fn encode(&self, ops: &O, value: &T) -> (r: DataResult<OT>) {
        match self.lc.encode(ops, value) {
            Ok(node) => Ok(node),
            Err(e) => {
                assert(self.first().encodes(*value, Err(e@)));
                self.rc.encode(ops, value)
            },
        }
    }

    fn decode(&self, ops: &O, value: &mut OT) -> (r: DataResult<T>) {
        let ghost before = ops.tree(*value);
        match self.lc.decode(ops, value) {
            Ok(found) => Ok(found),
            Err(e) => {
                let ghost middle = ops.tree(*value);
                assert(self.first().decodes(before, middle, Err(e@)));
                let found = self.rc.decode(ops, value);
                assert(self.second().decodes(middle, ops.tree(*value), decoded(found)));
                found
            },
        }
    }
}

/// Whether the function `f` may give `value` when called.
pub open spec fn yields<T, F: Fn() -> T>(f: F, value: T) -> bool {
    call_ensures(f, (), value)
}

/// A codec that puts a freshly computed default in place of a decoding
/// failure. Encoding is that of the inner codec.
#[verifier::reject_recursive_types(T)]
pub struct OrElseCodec<T, C: Codec<T, OT, O>, F: Fn() -> T, OT, O: CodecOps<OT>> {
    codec: C,
    default: F,
    _phantom: PhantomData<(OT, O)>,
}

impl<T, C: Codec<T, OT, O>, F: Fn() -> T, OT, O: CodecOps<OT>> OrElseCodec<T, C, F, OT, O> {
    #[verifier::type_invariant]
    spec fn default_is_total(self) -> bool {
        call_requires(self.default, ())
    }

    /// The codec that does the work.
    pub closed spec fn inner(&self) -> C {
        self.codec
    }

    /// The function that computes the default.
    pub closed spec fn default_fn(&self) -> F {
        self.default
    }

    /// The codec that decodes with `codec` and, where that fails, returns
    /// what `default` computes. `default` must be callable.
    pub fn new(codec: C, default: F) -> (r: Self)
        requires
            call_requires(default, ()),
        ensures
            r.inner() == codec,
            r.default_fn() == default,
            r.defined(),
    {
        OrElseCodec { codec, default, _phantom: PhantomData }
    }

    /// Whether encoding `value` may end in `out`: as the inner codec
    /// encodes.
    pub open spec fn may_encode(&self, value: T, out: Result<Tree, ErrorView>) -> bool {
        self.inner().encodes(value, out)
    }

    /// Whether decoding may end in `out`: what the inner codec decoded, or
    /// what the default function computes where the inner codec failed.
    pub open spec fn may_decode(
        &self,
        before: Tree,
        after: Tree,
        out: Result<T, ErrorView>,
    ) -> bool {
        exists|found: Result<T, ErrorView>|
            #[trigger] self.inner().decodes(before, after, found) && match found {
                Ok(value) => out == Ok::<T, ErrorView>(value),
                Err(_) => out matches Ok(value) && yields(self.default_fn(), value),
            }
    }

    /// Whether the relations of the codec are `may_encode` and `may_decode`.
    pub open spec fn defined(&self) -> bool {
        &&& forall|value: T, out: Result<Tree, ErrorView>| #[trigger]
            self.encodes(value, out) <==> self.may_encode(value, out)
        &&& forall|before: Tree, after: Tree, out: Result<T, ErrorView>| #[trigger]
            self.decodes(before, after, out) <==> self.may_decode(before, after, out)
    }
}

impl<T, C: Codec<T, OT, O>, F: Fn() -> T, OT, O: CodecOps<OT>> Codec<T, OT, O> for OrElseCodec<
    T,
    C,
    F,
    OT,
    O,
> {
    open spec fn encodes(&self, value: T, out: Result<Tree, ErrorView>) -> bool {
        self.may_encode(value, out)
    }

    open spec fn decodes(&self, before: Tree, after: Tree, out: Result<T, ErrorView>) -> bool {
        self.may_decode(before, after, out)
    }

    fn encode(&self, ops: &O, value: &T) -> (r: DataResult<OT>) {
        self.codec.encode(ops, value)
    }

    fn decode(&self, ops: &O, value: &mut OT) -> (r: DataResult<T>) {
        proof {
            use_type_invariant(self);
        }
        let ghost before = ops.tree(*value);
        let found = self.codec.decode(ops, value);
        assert(self.inner().decodes(before, ops.tree(*value), decoded(found)));
        match found {
            Ok(value) => Ok(value),
            Err(_) => Ok((self.default)()),
        }
    }
}

/// A codec of boxed values: the box is put around what the inner codec
/// decodes and taken away before it encodes.
pub struct BoxCodec<T, OT, O: CodecOps<OT>, C: Codec<T, OT, O>> {
    inner: C,
    _phantom: PhantomData<(T, OT, O)>,
}

impl<T, OT, O: CodecOps<OT>, C: Codec<T, OT, O>> BoxCodec<T, OT, O, C> {
    /// The codec of the value in the box.
    pub closed spec fn inner(&self) -> C {
        self.inner
    }

    /// The codec of boxes around what `inner` handles.
    pub fn new(inner: C) -> (r: Self)
        ensures
            r.inner() == inner,
            r.defined(),
    {
        BoxCodec { inner, _phantom: PhantomData }
    }
}

impl<T, OT, O: CodecOps<OT>, C: Codec<T, OT, O>> BoxCodec<T, OT, O, C> {
    /// Whether encoding `value` may end in `out`: the inner codec encodes
    /// what is in the box.
    pub open spec fn may_encode(&self, value: Box<T>, out: Result<Tree, ErrorView>) -> bool {
        self.inner().encodes(*value, out)
    }

    /// Whether decoding may end in `out`: the inner codec decodes, and a
    /// box is put around what it decoded.
    pub open spec fn may_decode(&self, before: Tree, after: Tree, out: Result<Box<T>, ErrorView>) -> bool {
        match out {
            Ok(boxed) => self.inner().decodes(before, after, Ok(*boxed)),
            Err(e) => self.inner().decodes(before, after, Err(e)),
        }
    }

    /// Whether the relations of the codec are `may_encode` and `may_decode`.
    pub open spec fn defined(&self) -> bool {
        &&& forall|value: Box<T>, out: Result<Tree, ErrorView>| #[trigger]
            self.encodes(value, out) <==> self.may_encode(value, out)
        &&& forall|before: Tree, after: Tree, out: Result<Box<T>, ErrorView>| #[trigger]
            self.decodes(before, after, out) <==> self.may_decode(before, after, out)
    }
}

impl<T, OT, O: CodecOps<OT>, C: Codec<T, OT, O>> Codec<Box<T>, OT, O> for BoxCodec<T, OT, O, C> {
    open spec fn encodes(&self, value: Box<T>, out: Result<Tree, ErrorView>) -> bool {
        self.may_encode(value, out)
    }

    open spec fn decodes(&self, before: Tree, after: Tree, out: Result<Box<T>, ErrorView>) -> bool {
        self.may_decode(before, after, out)
    }

    fn encode(&self, ops: &O, value: &Box<T>) -> (r: DataResult<OT>) {
        self.inner.encode(ops, &**value)
    }

    fn decode(&self, ops: &O, value: &mut OT) -> (r: DataResult<Box<T>>) {
        match self.inner.decode(ops, value) {
            Ok(found) => Ok(Box::new(found)),
            Err(e) => Err(e),
        }
    }
}

/// A codec as it is held behind a pointer: it does what the codec inside
/// does.
pub(crate) struct Held<C>(pub(crate) C);

impl<T, OT, O: CodecOps<OT>, C: Codec<T, OT, O>> Codec<T, OT, O> for Held<C> {
    closed spec fn encodes(&self, value: T, out: Result<Tree, ErrorView>) -> bool {
        self.0.encodes(value, out)
    }

    closed spec fn decodes(&self, before: Tree, after: Tree, out: Result<T, ErrorView>) -> bool {
        self.0.decodes(before, after, out)
    }

    fn encode(&self, ops: &O, value: &T) -> (r: DataResult<OT>) {
        self.0.encode(ops, value)
    }

    fn decode(&self, ops: &O, value: &mut OT) -> (r: DataResult<T>) {
        self.0.decode(ops, value)
    }
}

/// A codec behind a box, chosen at run time: a single-owner handle.
#[verifier::reject_recursive_types(T)]
#[verifier::reject_recursive_types(OT)]
#[verifier::reject_recursive_types(O)]
pub struct DynamicCodec<T, OT, O: CodecOps<OT>> {
    codec: Box<dyn Codec<T, OT, O>>,
}

impl<T, OT, O: CodecOps<OT>> DynamicCodec<T, OT, O> {
    /// Puts `codec` behind the box. The clauses spell out `mirrors(r, codec)`.
    fn boxed_up<C: Codec<T, OT, O> + 'static>(codec: C) -> (r: Self)
        ensures
            forall|value: T, out: Result<Tree, ErrorView>|
                r.encodes(value, out) <==> codec.encodes(value, out),
            forall|before: Tree, after: Tree, out: Result<T, ErrorView>|
                r.decodes(before, after, out) <==> codec.decodes(before, after, out),
    {
        DynamicCodec { codec: Box::new(Held(codec)) }
    }

    /// The handle around `codec`: it encodes and decodes as `codec` does.
    pub fn new<C: Codec<T, OT, O> + 'static>(codec: C) -> (r: Self)
        ensures
            mirrors(r, codec),
    {
        Self::boxed_up(codec)
    }
}

impl<T, OT, O: CodecOps<OT>> Codec<T, OT, O> for DynamicCodec<T, OT, O> {
    closed spec fn encodes(&self, value: T, out: Result<Tree, ErrorView>) -> bool {
        self.codec.encodes(value, out)
    }

    closed spec fn decodes(&self, before: Tree, after: Tree, out: Result<T, ErrorView>) -> bool {
        self.codec.decodes(before, after, out)
    }

    fn encode(&self, ops: &O, value: &T) -> (r: DataResult<OT>) {
        self.codec.encode(ops, value)
    }

    fn decode(&self, ops: &O, value: &mut OT) -> (r: DataResult<T>) {
        self.codec.decode(ops, value)
    }
}

/// A codec behind a reference-counted pointer, chosen at run time: a handle
/// that can be cloned and shared.
#[verifier::reject_recursive_types(T)]
#[verifier::reject_recursive_types(OT)]
#[verifier::reject_recursive_types(O)]
pub struct ArcCodec<T, OT, O: CodecOps<OT>> {
    codec: Arc<DynamicCodec<T, OT, O>>,
}

impl<T, OT, O: CodecOps<OT>> ArcCodec<T, OT, O> {
    /// The handle around `codec`: it encodes and decodes as `codec` does.
    pub fn new<C: Codec<T, OT, O> + 'static>(codec: C) -> (r: Self)
        ensures
            mirrors(r, codec),
    {
        ArcCodec { codec: Arc::new(DynamicCodec::new(codec)) }
    }

    /// Another handle to the same codec.
    pub fn share(&self) -> (r: Self)
        ensures
            r == *self,
    {
        ArcCodec { codec: self.codec.clone() }
    }
}

impl<T, OT, O: CodecOps<OT>> Clone for ArcCodec<T, OT, O> {
    fn clone(&self) -> (r: Self)
        ensures
            r == *self,
    {
        self.share()
    }
}

impl<T, OT, O: CodecOps<OT>> Codec<T, OT, O> for ArcCodec<T, OT, O> {
    closed spec fn encodes(&self, value: T, out: Result<Tree, ErrorView>) -> bool {
        self.codec.encodes(value, out)
    }

    closed spec fn decodes(&self, before: Tree, after: Tree, out: Result<T, ErrorView>) -> bool {
        self.codec.decodes(before, after, out)
    }

    fn encode(&self, ops: &O, value: &T) -> (r: DataResult<OT>) {
        self.codec.encode(ops, value)
    }

    fn decode(&self, ops: &O, value: &mut OT) -> (r: DataResult<T>) {
        self.codec.decode(ops, value)
    }
}

/// The codec of a union of two types: the value is encoded by the codec of
/// the arm it occupies; decoding tries the left arm first and the right arm
/// where the left one fails.
pub struct EitherCodec<T, T2, Lc: Codec<T, OT, O>, Rc: Codec<T2, OT, O>, OT, O: CodecOps<OT>> {
    lc: Lc,
    rc: Rc,
    _phantom: PhantomData<(T, T2, OT, O)>,
}

impl<T, T2, Lc: Codec<T, OT, O>, Rc: Codec<T2, OT, O>, OT, O: CodecOps<OT>> EitherCodec<
    T,
    T2,
    Lc,
    Rc,
    OT,
    O,
> {
    /// The codec of the left arm.
    pub closed spec fn left(&self) -> Lc {
        self.lc
    }

    /// The codec of the right arm.
    pub closed spec fn right(&self) -> Rc {
        self.rc
    }

    /// The codec of the union of what `left` and `right` handle.
    pub fn new(left: Lc, right: Rc) -> (r: Self)
        ensures
            r.left() == left,
            r.right() == right,
            r.defined(),
    {
        EitherCodec { lc: left, rc: right, _phantom: PhantomData }
    }

    /// Whether the left codec may fail on `before`, leaving `middle`, and
    /// the right one may then end in `found`, leaving `after`.
    pub open spec fn falls_back(
        &self,
        before: Tree,
        after: Tree,
        found: Result<T2, ErrorView>,
    ) -> bool {
        exists|middle: Tree, e: ErrorView|
            #[trigger] self.left().decodes(before, middle, Err(e)) && self.right().decodes(
                middle,
                after,
                found,
            )
    }
}

impl<T, T2, Lc: Codec<T, OT, O>, Rc: Codec<T2, OT, O>, OT, O: CodecOps<OT>> EitherCodec<T, T2, Lc, Rc, OT, O> {
    /// Whether encoding `value` may end in `out`: the codec of the arm that
    /// `value` occupies encodes it.
    pub open spec fn may_encode(&self, value: Either<T, T2>, out: Result<Tree, ErrorView>) -> bool {
        match value {
            Either::Left(left) => self.left().encodes(left, out),
            Either::Right(right) => self.right().encodes(right, out),
        }
    }

    /// Whether decoding may end in `out`: a success of the left codec, in
    /// the left arm, or where it fails, what the right codec does with the
    /// node as the left one left it, in the right arm.
    pub open spec fn may_decode(
        &self,
        before: Tree,
        after: Tree,
        out: Result<Either<T, T2>, ErrorView>,
    ) -> bool {
        match out {
            Ok(Either::Left(left)) => self.left().decodes(before, after, Ok(left)),
            Ok(Either::Right(right)) => self.falls_back(before, after, Ok(right)),
            Err(e) => self.falls_back(before, after, Err(e)),
        }
    }

    /// Whether the relations of the codec are `may_encode` and `may_decode`.
    pub open spec fn defined(&self) -> bool {
        &&& forall|value: Either<T, T2>, out: Result<Tree, ErrorView>| #[trigger]
            self.encodes(value, out) <==> self.may_encode(value, out)
        &&& forall|before: Tree, after: Tree, out: Result<Either<T, T2>, ErrorView>| #[trigger]
            self.decodes(before, after, out) <==> self.may_decode(before, after, out)
    }
}

impl<T, T2, Lc: Codec<T, OT, O>, Rc: Codec<T2, OT, O>, OT, O: CodecOps<OT>> Codec<
    Either<T, T2>,
    OT,
    O,
> for EitherCodec<T, T2, Lc, Rc, OT, O> {
    open spec fn encodes(&self, value: Either<T, T2>, out: Result<Tree, ErrorView>) -> bool {
        self.may_encode(value, out)
    }

    open spec fn decodes(
        &self,
        before: Tree,
        after: Tree,
        out: Result<Either<T, T2>, ErrorView>,
    ) -> bool {
        self.may_decode(before, after, out)
    }

    fn encode(&self, ops: &O, value: &Either<T, T2>) -> (r: DataResult<OT>) {
        match value {
            Either::Left(left) => self.lc.encode(ops, left),
            Either::Right(right) => self.rc.encode(ops, right),
        }
    }

    fn decode(&self, ops: &O, value: &mut OT) -> (r: DataResult<Either<T, T2>>) {
        let ghost before = ops.tree(*value);
        match self.lc.decode(ops, value) {
            Ok(left) => Ok(Either::Left(left)),
            Err(e) => {
                let ghost middle = ops.tree(*value);
                assert(self.left().decodes(before, middle, Err(e@)));
                let found = self.rc.decode(ops, value);
                assert(self.right().decodes(middle, ops.tree(*value), decoded(found)));
                match found {
                    Ok(right) => Ok(Either::Right(right)),
                    Err(e2) => Err(e2),
                }
            },
        }
    }
}

/// Whether the selector `f` may answer `chosen` for `value`.
pub open spec fn selects_by_value<T, OT, O: CodecOps<OT>, E>(
    f: E,
    value: T,
    chosen: DataResult<DynamicCodec<T, OT, O>>,
) -> bool where E: Fn(&T) -> DataResult<DynamicCodec<T, OT, O>> {
    call_ensures(f, (&value,), chosen)
}

/// Whether the selector `f` may answer `chosen` for some node that stands
/// for `tree`.
pub open spec fn selects_by_tree<T, OT, O: CodecOps<OT>, F>(
    f: F,
    tree: Tree,
    chosen: DataResult<DynamicCodec<T, OT, O>>,
) -> bool where F: Fn(&O, &OT) -> DataResult<DynamicCodec<T, OT, O>> {
    exists|ops: O, node: OT| ops.tree(node) == tree && #[trigger] call_ensures(f, (&ops, &node), chosen)
}

/// A codec that picks the codec to use at each call: by the value when
/// encoding, by the representation when decoding.
#[verifier::reject_recursive_types(T)]
#[verifier::reject_recursive_types(OT)]
#[verifier::reject_recursive_types(O)]
pub struct DispatchCodec<T, OT, O, E, F> where
    O: CodecOps<OT>,
    E: Fn(&T) -> DataResult<DynamicCodec<T, OT, O>>,
    F: Fn(&O, &OT) -> DataResult<DynamicCodec<T, OT, O>>,
 {
    from_type_to_codec: E,
    from_ops_to_codec: F,
    _phantom: PhantomData<(T, OT, O)>,
}

impl<T, OT, O, E, F> DispatchCodec<T, OT, O, E, F> where
    O: CodecOps<OT>,
    E: Fn(&T) -> DataResult<DynamicCodec<T, OT, O>>,
    F: Fn(&O, &OT) -> DataResult<DynamicCodec<T, OT, O>>,
 {
    #[verifier::type_invariant]
    spec fn selectors_are_total(self) -> bool {
        &&& forall|value: &T| call_requires(self.from_type_to_codec, (value,))
        &&& forall|ops: &O, node: &OT| call_requires(self.from_ops_to_codec, (ops, node))
    }

    /// The selector used when encoding.
    pub closed spec fn value_selector(&self) -> E {
        self.from_type_to_codec
    }

    /// The selector used when decoding.
    pub closed spec fn repr_selector(&self) -> F {
        self.from_ops_to_codec
    }

    /// The codec that asks `from_type_to_codec` which codec encodes a value
    /// and `from_ops_to_codec` which codec decodes a node. Both selectors
    /// must accept every input.
    pub fn new(from_type_to_codec: E, from_ops_to_codec: F) -> (r: Self)
        requires
            forall|value: &T| call_requires(from_type_to_codec, (value,)),
            forall|ops: &O, node: &OT| call_requires(from_ops_to_codec, (ops, node)),
        ensures
            r.value_selector() == from_type_to_codec,
            r.repr_selector() == from_ops_to_codec,
            r.defined(),
    {
        DispatchCodec { from_type_to_codec, from_ops_to_codec, _phantom: PhantomData }
    }

    /// Whether encoding `value` may end in `out`: the codec that the value
    /// selector answers encodes `value`, and a failure of the selector is
    /// passed on.
    pub open spec fn may_encode(&self, value: T, out: Result<Tree, ErrorView>) -> bool {
        exists|chosen: DataResult<DynamicCodec<T, OT, O>>|
            #[trigger] selects_by_value(self.value_selector(), value, chosen) && match chosen {
                Ok(codec) => codec.encodes(value, out),
                Err(e) => out == Err::<Tree, ErrorView>(e@),
            }
    }

    /// Whether decoding may end in `out`: the codec that the representation
    /// selector answers decodes the node, and a failure of the selector is
    /// passed on, the node left as it was.
    pub open spec fn may_decode(
        &self,
        before: Tree,
        after: Tree,
        out: Result<T, ErrorView>,
    ) -> bool {
        exists|chosen: DataResult<DynamicCodec<T, OT, O>>|
            #[trigger] selects_by_tree(self.repr_selector(), before, chosen) && match chosen {
                Ok(codec) => codec.decodes(before, after, out),
                Err(e) => after == before && out == Err::<T, ErrorView>(e@),
            }
    }

    /// Whether the relations of the codec are `may_encode` and `may_decode`.
    pub open spec fn defined(&self) -> bool {
        &&& forall|value: T, out: Result<Tree, ErrorView>| #[trigger]
            self.encodes(value, out) <==> self.may_encode(value, out)
        &&& forall|before: Tree, after: Tree, out: Result<T, ErrorView>| #[trigger]
            self.decodes(before, after, out) <==> self.may_decode(before, after, out)
    }
}

impl<T, OT, O, E, F> Codec<T, OT, O> for DispatchCodec<T, OT, O, E, F> where
    O: CodecOps<OT>,
    E: Fn(&T) -> DataResult<DynamicCodec<T, OT, O>>,
    F: Fn(&O, &OT) -> DataResult<DynamicCodec<T, OT, O>>,
 {
    open spec fn encodes(&self, value: T, out: Result<Tree, ErrorView>) -> bool {
        self.may_encode(value, out)
    }

    open spec fn decodes(&self, before: Tree, after: Tree, out: Result<T, ErrorView>) -> bool {
        self.may_decode(before, after, out)
    }

    fn encode(&self, ops: &O, value: &T) -> (r: DataResult<OT>) {
        proof {
            use_type_invariant(self);
        }
        let chosen = (self.from_type_to_codec)(value);
        assert(selects_by_value(self.value_selector(), *value, chosen));
        match chosen {
            Ok(codec) => codec.encode(ops, value),
            Err(e) => Err(e),
        }
    }

    fn decode(&self, ops: &O, value: &mut OT) -> (r: DataResult<T>) {
        proof {
            use_type_invariant(self);
        }
        let ghost before = ops.tree(*value);
        let chosen = (self.from_ops_to_codec)(ops, &*value);
        assert(selects_by_tree(self.repr_selector(), before, chosen)) by {
            assert(call_ensures(self.repr_selector(), (ops, &*value), chosen));
        }
        match chosen {
            Ok(codec) => codec.decode(ops, value),
            Err(e) => Err(e),
        }
    }
}

/// The codec of the unit value: a unit node.
pub struct UnitCodec<OT, O: CodecOps<OT>> {
    _phantom: PhantomData<(OT, O)>,
}

impl<OT, O: CodecOps<OT>> UnitCodec<OT, O> {
    /// The codec of the unit value.
    pub fn new() -> Self {
        UnitCodec { _phantom: PhantomData }
    }
}

impl<OT, O: CodecOps<OT>> Codec<(), OT, O> for UnitCodec<OT, O> {
    open spec fn encodes(&self, value: (), out: Result<Tree, ErrorView>) -> bool {
        out == Ok::<Tree, ErrorView>(Tree::Unit)
    }

    open spec fn decodes(&self, before: Tree, after: Tree, out: Result<(), ErrorView>) -> bool {
        &&& after == before
        &&& match before {
            Tree::Unit => out == Ok::<(), ErrorView>(()),
            other => out == Err::<(), ErrorView>(mismatch(Shape::Unit, other)),
        }
    }

    fn encode(&self, ops: &O, value: &()) -> (r: DataResult<OT>) {
        Ok(ops.create_unit())
    }

    fn decode(&self, ops: &O, value: &mut OT) -> (r: DataResult<()>) {
        ops.get_unit(value)
    }
}

/// The codec of an integer type: a number node holding the number nearest
/// to the integer. Decoding takes the integer part of the number, held to
/// the range of the type.
pub struct NumberCodec<N: F64Convertable, OT, O: CodecOps<OT>> {
    _phantom: PhantomData<(N, OT, O)>,
}

impl<N: F64Convertable, OT, O: CodecOps<OT>> NumberCodec<N, OT, O> {
    /// The codec of the integer type `N`.
    pub fn new() -> Self {
        NumberCodec { _phantom: PhantomData }
    }
}

impl<N: F64Convertable, OT, O: CodecOps<OT>> Codec<N, OT, O> for NumberCodec<N, OT, O> {
    open spec fn encodes(&self, value: N, out: Result<Tree, ErrorView>) -> bool {
        out == Ok::<Tree, ErrorView>(Tree::Number(number_of(value.to_int())))
    }

    open spec fn decodes(&self, before: Tree, after: Tree, out: Result<N, ErrorView>) -> bool {
        &&& after == before
        &&& match before {
            Tree::Number(n) => out matches Ok(value) && value.to_int() == n.saturated(
                N::least(),
                N::greatest(),
            ),
            other => out == Err::<N, ErrorView>(mismatch(Shape::Number, other)),
        }
    }

    fn encode(&self, ops: &O, value: &N) -> (r: DataResult<OT>) {
        let number = value.into_f64();
        Ok(ops.create_number(&number))
    }

    fn decode(&self, ops: &O, value: &mut OT) -> (r: DataResult<N>) {
        match ops.get_number(value) {
            Ok(number) => Ok(N::from_f64(number)),
            Err(e) => Err(e),
        }
    }
}

impl<OT, O: CodecOps<OT>> DefaultCodec<OT, O> for i8 {
    type Default = NumberCodec<i8, OT, O>;

    fn codec() -> NumberCodec<i8, OT, O> {
        NumberCodec::new()
    }
}

impl<OT, O: CodecOps<OT>> DefaultCodec<OT, O> for i16 {
    type Default = NumberCodec<i16, OT, O>;

    fn codec() -> NumberCodec<i16, OT, O> {
        NumberCodec::new()
    }
}

impl<OT, O: CodecOps<OT>> DefaultCodec<OT, O> for i32 {
    type Default = NumberCodec<i32, OT, O>;

    fn codec() -> NumberCodec<i32, OT, O> {
        NumberCodec::new()
    }
}

impl<OT, O: CodecOps<OT>> DefaultCodec<OT, O> for i64 {
    type Default = NumberCodec<i64, OT, O>;

    fn codec() -> NumberCodec<i64, OT, O> {
        NumberCodec::new()
    }
}

impl<OT, O: CodecOps<OT>> DefaultCodec<OT, O> for isize {
    type Default = NumberCodec<isize, OT, O>;

    fn codec() -> NumberCodec<isize, OT, O> {
        NumberCodec::new()
    }
}

impl<OT, O: CodecOps<OT>> DefaultCodec<OT, O> for u8 {
    type Default = NumberCodec<u8, OT, O>;

    fn codec() -> NumberCodec<u8, OT, O> {
        NumberCodec::new()
    }
}

impl<OT, O: CodecOps<OT>> DefaultCodec<OT, O> for u16 {
    type Default = NumberCodec<u16, OT, O>;

    fn codec() -> NumberCodec<u16, OT, O> {
        NumberCodec::new()
    }
}

impl<OT, O: CodecOps<OT>> DefaultCodec<OT, O> for u32 {
    type Default = NumberCodec<u32, OT, O>;

    fn codec() -> NumberCodec<u32, OT, O> {
        NumberCodec::new()
    }
}

impl<OT, O: CodecOps<OT>> DefaultCodec<OT, O> for u64 {
    type Default = NumberCodec<u64, OT, O>;

    fn codec() -> NumberCodec<u64, OT, O> {
        NumberCodec::new()
    }
}

impl<OT, O: CodecOps<OT>> DefaultCodec<OT, O> for usize {
    type Default = NumberCodec<usize, OT, O>;

    fn codec() -> NumberCodec<usize, OT, O> {
        NumberCodec::new()
    }
}

} // verus!
