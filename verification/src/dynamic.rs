//! A representation value paired with the backend that reads it.

use crate::number::Number;
use crate::result::{DataError, DataResult, Shape};
use crate::serialization::ops::{mismatch, CodecOps};
use crate::serialization::views::{ListLensMut, ListViewMut, MapLensMut, MapView};
use crate::tree::Tree;
use vstd::prelude::*;

verus! {

/// A borrowed representation value together with its backend: the value can
/// be inspected and changed without naming the backend at each step.
pub struct Dynamic<'a, T, O: CodecOps<T>> {
    ops: O,
    value: &'a mut T,
}

impl<'a, T, O: CodecOps<T>> Dynamic<'a, T, O> {
    /// The backend that reads the value.
    pub closed spec fn backend(&self) -> O {
        self.ops
    }

    /// The borrow of the value.
    pub closed spec fn slot(&self) -> &'a mut T {
        self.value
    }

    /// The tree that the value stands for.
    pub open spec fn tree(&self) -> Tree {
        self.backend().tree(*self.slot())
    }

    /// Once the pair is no longer used, the value is what the pair last
    /// showed.
    pub proof fn lemma_settled(&self)
        requires
            has_resolved(*self),
        ensures
            *self.slot() == *final(self.slot()),
    {
    }

    /// Pairs `value` with `ops`.
    pub fn new(ops: O, value: &'a mut T) -> (r: Dynamic<'a, T, O>)
        ensures
            r.backend() == ops,
            *r.slot() == *old(value),
            *final(value) == *final(r.slot()),
    {
        Dynamic { ops, value }
    }

    /// The value.
    pub fn value(&self) -> (r: &T)
        ensures
            *r == *self.slot(),
    {
        &*self.value
    }

    /// Gives the borrow of the value back.
    pub fn into_inner(self) -> (r: &'a mut T)
        ensures
            *r == *self.slot(),
            *final(r) == *final(self.slot()),
    {
        self.value
    }

    /// The backend.
    pub fn ops(&self) -> (r: &O)
        ensures
            *r == self.backend(),
    {
        &self.ops
    }

    /// Applies `f` to the value.
    pub fn mutate<F: FnOnce(&mut T)>(&mut self, f: F)
        requires
            forall|node: &mut T| *node == *old(self).slot() ==> call_requires(f, (node,)),
        ensures
            final(self).backend() == old(self).backend(),
            *final(final(self).slot()) == *final(old(self).slot()),
            exists|node: &mut T|
                *node == *old(self).slot() && #[trigger] call_ensures(f, (node,), ())
                    && *final(self).slot() == *final(node),
    {
        let node = &mut *self.value;
        f(node);
    }

    /// The number in the value, if it is a number node.
    pub fn as_number(&self) -> (r: DataResult<Number>)
        ensures
            match self.tree() {
                Tree::Number(n) => r == Ok::<Number, DataError>(n),
                other => r matches Err(e) && e@ == mismatch(Shape::Number, other),
            },
    {
        self.ops.get_number(&*self.value)
    }

    /// The text in the value, if it is a string node.
    pub fn as_string(&self) -> (r: DataResult<String>)
        ensures
            match self.tree() {
                Tree::String(s) => r matches Ok(text) && text@ == s,
                other => r matches Err(e) && e@ == mismatch(Shape::String, other),
            },
    {
        self.ops.get_string(&*self.value)
    }

    /// The truth value in the value, if it is a boolean node.
    pub fn as_boolean(&self) -> (r: DataResult<bool>)
        ensures
            match self.tree() {
                Tree::Boolean(b) => r == Ok::<bool, DataError>(b),
                other => r matches Err(e) && e@ == mismatch(Shape::Boolean, other),
            },
    {
        self.ops.get_boolean(&*self.value)
    }

    /// Succeeds if the value is a unit node.
    pub fn as_unit(&self) -> (r: DataResult<()>)
        ensures
            match self.tree() {
                Tree::Unit => r is Ok,
                other => r matches Err(e) && e@ == mismatch(Shape::Unit, other),
            },
    {
        self.ops.get_unit(&*self.value)
    }

    /// A lens into the value, if it is a map node.
    pub fn as_map(&mut self) -> (r: DataResult<MapLensMut<'_, T, O>>)
        ensures
            final(self).backend() == old(self).backend(),
            *final(final(self).slot()) == *final(old(self).slot()),
            match old(self).tree() {
                Tree::Mapping(_) => {
                    &&& r matches Ok(lens)
                    &&& lens.wf()
                    &&& *lens.ops() == old(self).backend()
                    &&& *lens.slot() == *old(self).slot()
                    &&& *final(self).slot() == *final(lens.slot())
                },
                other => {
                    &&& r matches Err(e)
                    &&& e@ == mismatch(Shape::Mapping, other)
                    &&& *final(self).slot() == *old(self).slot()
                },
            },
    {
        MapLensMut::new(&self.ops, &mut *self.value)
    }

    /// A lens into the value, if it is a list node.
    pub fn as_list(&mut self) -> (r: DataResult<ListLensMut<'_, T, O>>)
        ensures
            final(self).backend() == old(self).backend(),
            *final(final(self).slot()) == *final(old(self).slot()),
            match old(self).tree() {
                Tree::List(_) => {
                    &&& r matches Ok(lens)
                    &&& lens.wf()
                    &&& *lens.ops() == old(self).backend()
                    &&& *lens.slot() == *old(self).slot()
                    &&& *final(self).slot() == *final(lens.slot())
                },
                other => {
                    &&& r matches Err(e)
                    &&& e@ == mismatch(Shape::List, other)
                    &&& *final(self).slot() == *old(self).slot()
                },
            },
    {
        ListLensMut::new(&self.ops, &mut *self.value)
    }
}

} // verus!
