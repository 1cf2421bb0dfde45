//! Lenses into one list or map node of a representation value.

use crate::result::{DataError, DataResult, ErrorView, Shape};
use crate::serialization::ops::{mismatch, trees_of, CodecOps};
use crate::tree::Tree;
use vstd::prelude::*;

verus! {

/// The names that a vector of keys spells.
pub open spec fn key_names(keys: Seq<String>) -> Seq<Seq<char>> {
    keys.map_values(|k: String| k@)
}

/// A read-only lens into a map node.
pub trait MapView<T> {
    /// The tree that the backend of this lens reads from a node.
    spec fn reads(&self, node: T) -> Tree;

    /// What the map holds.
    spec fn entries(&self) -> Map<Seq<char>, Tree>;

    /// Whether the lens sits on a map node.
    spec fn wf(&self) -> bool;

    /// The value under `name`; fails with `KeyNotFound` where there is none.
    fn get(&self, name: &str) -> (r: DataResult<&T>)
        requires
            self.wf(),
        ensures
            match r {
                Ok(child) => self.entries().contains_key(name@) && self.reads(*child)
                    == self.entries()[name@],
                Err(e) => !self.entries().contains_key(name@) && e@ == ErrorView::KeyNotFound(
                    name@,
                ),
            },
    ;

    /// The keys of the map, each once, in no particular order.
    fn keys(&self) -> (keys: Vec<String>)
        requires
            self.wf(),
        ensures
            key_names(keys@).no_duplicates(),
            key_names(keys@).to_set() == self.entries().dom(),
    ;
}

/// A lens into a map node that can change it. Every change lands in the node
/// that the lens was made from.
pub trait MapViewMut<T>: MapView<T> {
    /// The value under `name`, for writing; fails with `KeyNotFound` where
    /// there is none.
    fn get_mut(&mut self, name: &str) -> (r: DataResult<&mut T>)
        requires
            old(self).wf(),
        ensures
            final(self).wf(),
            forall|n: T| final(self).reads(n) == old(self).reads(n),
            match r {
                Ok(child) => old(self).entries().contains_key(name@) && old(self).reads(*child)
                    == old(self).entries()[name@] && final(self).entries() == old(
                    self,
                ).entries().insert(name@, old(self).reads(*final(child))),
                Err(e) => !old(self).entries().contains_key(name@) && e@ == ErrorView::KeyNotFound(
                    name@,
                ) && final(self).entries() == old(self).entries(),
            },
    ;

    /// Puts `value` under `name`, replacing what was there.
    fn set(&mut self, name: &str, value: T)
        requires
            old(self).wf(),
        ensures
            final(self).wf(),
            forall|n: T| final(self).reads(n) == old(self).reads(n),
            final(self).entries() == old(self).entries().insert(name@, old(self).reads(value)),
    ;

    /// Takes the value under `key` out of the map; fails with `KeyNotFound`
    /// where there is none.
    fn remove(&mut self, key: &str) -> (r: DataResult<T>)
        requires
            old(self).wf(),
        ensures
            final(self).wf(),
            forall|n: T| final(self).reads(n) == old(self).reads(n),
            match r {
                Ok(child) => old(self).entries().contains_key(key@) && old(self).reads(child)
                    == old(self).entries()[key@] && final(self).entries() == old(
                    self,
                ).entries().remove(key@),
                Err(e) => !old(self).entries().contains_key(key@) && e@ == ErrorView::KeyNotFound(
                    key@,
                ) && final(self).entries() == old(self).entries(),
            },
    ;

    /// Applies `f` to the value under `name`; does nothing where there is
    /// none.
    fn update<F: FnOnce(&mut T)>(&mut self, name: &str, f: F)
        requires
            old(self).wf(),
            forall|child: &mut T|
                old(self).entries().contains_key(name@) && old(self).reads(*child) == old(
                    self,
                ).entries()[name@] ==> call_requires(f, (child,)),
        ensures
            final(self).wf(),
            forall|n: T| final(self).reads(n) == old(self).reads(n),
            if old(self).entries().contains_key(name@) {
                exists|child: &mut T|
                    old(self).reads(*child) == old(self).entries()[name@] && call_ensures(
                        f,
                        (child,),
                        (),
                    ) && final(self).entries() == old(self).entries().insert(
                        name@,
                        old(self).reads(*final(child)),
                    )
            } else {
                final(self).entries() == old(self).entries()
            },
    {
        match self.get_mut(name) {
            Ok(child) => {
                f(child);
            },
            Err(_) => {},
        }
    }
}

/// A read-only lens into a list node.
pub trait ListView<T>: Sized {
    /// The tree that the backend of this lens reads from a node.
    spec fn reads(&self, node: T) -> Tree;

    /// What the list holds, in order.
    spec fn items(&self) -> Seq<Tree>;

    /// Whether the lens sits on a list node.
    spec fn wf(&self) -> bool;

    /// The item at `index`, counted from zero; fails with `IndexOutOfBounds`
    /// beyond the end.
    fn get(&self, index: usize) -> (r: DataResult<&T>)
        requires
            self.wf(),
        ensures
            match r {
                Ok(item) => index < self.items().len() && self.reads(*item) == self.items()[index as int],
                Err(e) => index >= self.items().len() && e@ == (ErrorView::IndexOutOfBounds {
                    index: index as nat,
                    length: self.items().len(),
                }),
            },
    ;

    /// Consumes the lens and hands out the items, owned, in order.
    fn into_iter(self) -> (nodes: Vec<T>)
        requires
            self.wf(),
        ensures
            trees_of(|n: T| self.reads(n), nodes@) == self.items(),
    ;
}

/// A lens into a list node that can change it. Every change lands in the
/// node that the lens was made from.
pub trait ListViewMut<T> {
    /// The tree that the backend of this lens reads from a node.
    spec fn reads(&self, node: T) -> Tree;

    /// What the list holds, in order.
    spec fn items(&self) -> Seq<Tree>;

    /// Whether the lens sits on a list node.
    spec fn wf(&self) -> bool;

    /// Adds `value` at the end.
    fn append(&mut self, value: T)
        requires
            old(self).wf(),
        ensures
            final(self).wf(),
            forall|n: T| final(self).reads(n) == old(self).reads(n),
            final(self).items() == old(self).items().push(old(self).reads(value)),
    ;

    /// The item at `index`, counted from zero, for writing; fails with
    /// `IndexOutOfBounds` beyond the end.
    fn get_mut(&mut self, index: usize) -> (r: DataResult<&mut T>)
        requires
            old(self).wf(),
        ensures
            final(self).wf(),
            forall|n: T| final(self).reads(n) == old(self).reads(n),
            match r {
                Ok(item) => index < old(self).items().len() && old(self).reads(*item) == old(
                    self,
                ).items()[index as int] && final(self).items() == old(self).items().update(
                    index as int,
                    old(self).reads(*final(item)),
                ),
                Err(e) => index >= old(self).items().len() && e@ == (ErrorView::IndexOutOfBounds {
                    index: index as nat,
                    length: old(self).items().len(),
                }) && final(self).items() == old(self).items(),
            },
    ;
}

/// The read-only lens of a backend `O` into a map node.
pub struct MapLens<'a, T, O: CodecOps<T>> {
    ops: &'a O,
    node: &'a T,
}

impl<'a, T, O: CodecOps<T>> MapLens<'a, T, O> {
    /// The backend that the lens reads with.
    pub closed spec fn ops(&self) -> &'a O {
        self.ops
    }

    /// The node that the lens looks into.
    pub closed spec fn node(&self) -> &'a T {
        self.node
    }

    /// A lens into `node` if it is a map, else a shape mismatch.
    pub fn new(ops: &'a O, node: &'a T) -> (r: DataResult<Self>)
        ensures
            match ops.tree(*node) {
                Tree::Mapping(_) => r matches Ok(lens) && lens.wf() && lens.ops() == ops
                    && lens.node() == node,
                other => r matches Err(e) && e@ == mismatch(Shape::Mapping, other),
            },
    {
        let found = ops.shape(node);
        match found {
            Shape::Mapping => Ok(MapLens { ops, node }),
            _ => Err(DataError::new_shape_mismatch(Shape::Mapping, found)),
        }
    }
}

impl<'a, T, O: CodecOps<T>> MapView<T> for MapLens<'a, T, O> {
    open spec fn reads(&self, node: T) -> Tree {
        self.ops().tree(node)
    }

    open spec fn entries(&self) -> Map<Seq<char>, Tree> {
        self.ops().tree(*self.node()).entries()
    }

    open spec fn wf(&self) -> bool {
        self.ops().tree(*self.node()) is Mapping
    }

    fn get(&self, name: &str) -> (r: DataResult<&T>) {
        self.ops.map_get(self.node, name)
    }

    fn keys(&self) -> (keys: Vec<String>) {
        match self.ops.map_keys(self.node) {
            Ok(keys) => keys,
            Err(_) => Vec::new(),
        }
    }
}

/// The lens of a backend `O` into a map node that can change it.
pub struct MapLensMut<'a, T, O: CodecOps<T>> {
    ops: &'a O,
    node: &'a mut T,
}

impl<'a, T, O: CodecOps<T>> MapLensMut<'a, T, O> {
    /// The backend that the lens reads and writes with.
    pub closed spec fn ops(&self) -> &'a O {
        self.ops
    }

    /// The borrow of the node that the lens writes through.
    pub closed spec fn slot(&self) -> &'a mut T {
        self.node
    }

    /// Once the lens is no longer used, the node holds what the lens last
    /// showed.
    pub proof fn lemma_settled(&self)
        requires
            has_resolved(*self),
        ensures
            *self.slot() == *final(self.slot()),
    {
    }

    /// A lens into `node` if it is a map, else a shape mismatch. What the
    /// lens holds when it is let go is what `node` holds from then on.
    pub fn new(ops: &'a O, node: &'a mut T) -> (r: DataResult<Self>)
        ensures
            match ops.tree(*old(node)) {
                Tree::Mapping(entries) => r matches Ok(lens) && lens.wf() && lens.ops() == ops
                    && *lens.slot() == *old(node) && *final(node) == *final(lens.slot()),
                other => r matches Err(e) && e@ == mismatch(Shape::Mapping, other) && *final(node)
                    == *old(node),
            },
    {
        let found = ops.shape(node);
        match found {
            Shape::Mapping => Ok(MapLensMut { ops, node }),
            _ => Err(DataError::new_shape_mismatch(Shape::Mapping, found)),
        }
    }
}

impl<'a, T, O: CodecOps<T>> MapView<T> for MapLensMut<'a, T, O> {
    open spec fn reads(&self, node: T) -> Tree {
        self.ops().tree(node)
    }

    open spec fn entries(&self) -> Map<Seq<char>, Tree> {
        self.ops().tree(*self.slot()).entries()
    }

    open spec fn wf(&self) -> bool {
        self.ops().tree(*self.slot()) is Mapping
    }

    fn get(&self, name: &str) -> (r: DataResult<&T>) {
        self.ops.map_get(self.node, name)
    }

    fn keys(&self) -> (keys: Vec<String>) {
        match self.ops.map_keys(self.node) {
            Ok(keys) => keys,
            Err(_) => Vec::new(),
        }
    }
}

impl<'a, T, O: CodecOps<T>> MapViewMut<T> for MapLensMut<'a, T, O> {
    fn get_mut(&mut self, name: &str) -> (r: DataResult<&mut T>)
        ensures
            final(self).ops() == old(self).ops(),
            *final(final(self).slot()) == *final(old(self).slot()),
    {
        self.ops.map_get_mut(self.node, name)
    }

    fn set(&mut self, name: &str, value: T)
        ensures
            final(self).ops() == old(self).ops(),
            *final(final(self).slot()) == *final(old(self).slot()),
    {
        let _ = self.ops.map_set(self.node, name, value);
    }

    fn remove(&mut self, key: &str) -> (r: DataResult<T>)
        ensures
            final(self).ops() == old(self).ops(),
            *final(final(self).slot()) == *final(old(self).slot()),
    {
        self.ops.map_remove(self.node, key)
    }

    fn update<F: FnOnce(&mut T)>(&mut self, name: &str, f: F)
        ensures
            final(self).ops() == old(self).ops(),
            *final(final(self).slot()) == *final(old(self).slot()),
    {
        match self.get_mut(name) {
            Ok(child) => {
                f(child);
            },
            Err(_) => {},
        }
    }
}

/// The read-only lens of a backend `O` into a list node.
pub struct ListLens<'a, T, O: CodecOps<T>> {
    ops: &'a O,
    node: &'a T,
}

impl<'a, T, O: CodecOps<T>> ListLens<'a, T, O> {
    /// The backend that the lens reads with.
    pub closed spec fn ops(&self) -> &'a O {
        self.ops
    }

    /// The node that the lens looks into.
    pub closed spec fn node(&self) -> &'a T {
        self.node
    }

    /// A lens into `node` if it is a list, else a shape mismatch.
    pub fn new(ops: &'a O, node: &'a T) -> (r: DataResult<Self>)
        ensures
            match ops.tree(*node) {
                Tree::List(_) => r matches Ok(lens) && lens.wf() && lens.ops() == ops && lens.node()
                    == node,
                other => r matches Err(e) && e@ == mismatch(Shape::List, other),
            },
    {
        let found = ops.shape(node);
        match found {
            Shape::List => Ok(ListLens { ops, node }),
            _ => Err(DataError::new_shape_mismatch(Shape::List, found)),
        }
    }
}

impl<'a, T, O: CodecOps<T>> ListView<T> for ListLens<'a, T, O> {
    open spec fn reads(&self, node: T) -> Tree {
        self.ops().tree(node)
    }

    open spec fn items(&self) -> Seq<Tree> {
        self.ops().tree(*self.node()).items()
    }

    open spec fn wf(&self) -> bool {
        self.ops().tree(*self.node()) is List
    }

    fn get(&self, index: usize) -> (r: DataResult<&T>) {
        self.ops.list_get(self.node, index)
    }

    fn into_iter(self) -> (nodes: Vec<T>) {
        match self.ops.list_items(self.node) {
            Ok(nodes) => {
                assert(trees_of(|n: T| self.reads(n), nodes@) =~= trees_of(
                    |n: T| self.ops.tree(n),
                    nodes@,
                ));
                nodes
            },
            Err(_) => Vec::new(),
        }
    }
}

/// The lens of a backend `O` into a list node that can change it.
pub struct ListLensMut<'a, T, O: CodecOps<T>> {
    ops: &'a O,
    node: &'a mut T,
}

impl<'a, T, O: CodecOps<T>> ListLensMut<'a, T, O> {
    /// The backend that the lens reads and writes with.
    pub closed spec fn ops(&self) -> &'a O {
        self.ops
    }

    /// The borrow of the node that the lens writes through.
    pub closed spec fn slot(&self) -> &'a mut T {
        self.node
    }

    /// Once the lens is no longer used, the node holds what the lens last
    /// showed.
    pub proof fn lemma_settled(&self)
        requires
            has_resolved(*self),
        ensures
            *self.slot() == *final(self.slot()),
    {
    }

    /// A lens into `node` if it is a list, else a shape mismatch. What the
    /// lens holds when it is let go is what `node` holds from then on.
    pub fn new(ops: &'a O, node: &'a mut T) -> (r: DataResult<Self>)
        ensures
            match ops.tree(*old(node)) {
                Tree::List(_) => r matches Ok(lens) && lens.wf() && lens.ops() == ops
                    && *lens.slot() == *old(node) && *final(node) == *final(lens.slot()),
                other => r matches Err(e) && e@ == mismatch(Shape::List, other) && *final(node)
                    == *old(node),
            },
    {
        let found = ops.shape(node);
        match found {
            Shape::List => Ok(ListLensMut { ops, node }),
            _ => Err(DataError::new_shape_mismatch(Shape::List, found)),
        }
    }
}

impl<'a, T, O: CodecOps<T>> ListViewMut<T> for ListLensMut<'a, T, O> {
    open spec fn reads(&self, node: T) -> Tree {
        self.ops().tree(node)
    }

    open spec fn items(&self) -> Seq<Tree> {
        self.ops().tree(*self.slot()).items()
    }

    open spec fn wf(&self) -> bool {
        self.ops().tree(*self.slot()) is List
    }

    fn append(&mut self, value: T)
        ensures
            final(self).ops() == old(self).ops(),
            *final(final(self).slot()) == *final(old(self).slot()),
    {
        let _ = self.ops.list_append(self.node, value);
    }

    fn get_mut(&mut self, index: usize) -> (r: DataResult<&mut T>)
        ensures
            final(self).ops() == old(self).ops(),
            *final(final(self).slot()) == *final(old(self).slot()),
    {
        self.ops.list_get_mut(self.node, index)
    }
}

/// The lenses that every backend hands out.
pub trait CodecViews<T>: CodecOps<T> {
    /// A read-only lens into a list node.
    fn get_list<'a>(&'a self, value: &'a T) -> (r: DataResult<ListLens<'a, T, Self>>)
        ensures
            match self.tree(*value) {
                Tree::List(_) => r matches Ok(lens) && lens.wf() && lens.ops() == self
                    && lens.node() == value,
                other => r matches Err(e) && e@ == mismatch(Shape::List, other),
            },
    {
        ListLens::new(self, value)
    }

    /// A lens into a list node that can change it.
    fn get_list_mut<'a>(&'a self, value: &'a mut T) -> (r: DataResult<ListLensMut<'a, T, Self>>)
        ensures
            match self.tree(*old(value)) {
                Tree::List(_) => r matches Ok(lens) && lens.wf() && lens.ops() == self
                    && *lens.slot() == *old(value) && *final(value) == *final(lens.slot()),
                other => r matches Err(e) && e@ == mismatch(Shape::List, other) && *final(value)
                    == *old(value),
            },
    {
        ListLensMut::new(self, value)
    }

    /// A read-only lens into a map node.
    fn get_map<'a>(&'a self, value: &'a T) -> (r: DataResult<MapLens<'a, T, Self>>)
        ensures
            match self.tree(*value) {
                Tree::Mapping(_) => r matches Ok(lens) && lens.wf() && lens.ops() == self
                    && lens.node() == value,
                other => r matches Err(e) && e@ == mismatch(Shape::Mapping, other),
            },
    {
        MapLens::new(self, value)
    }

    /// A lens into a map node that can change it.
    fn get_map_mut<'a>(&'a self, value: &'a mut T) -> (r: DataResult<MapLensMut<'a, T, Self>>)
        ensures
            match self.tree(*old(value)) {
                Tree::Mapping(_) => r matches Ok(lens) && lens.wf() && lens.ops() == self
                    && *lens.slot() == *old(value) && *final(value) == *final(lens.slot()),
                other => r matches Err(e) && e@ == mismatch(Shape::Mapping, other) && *final(value)
                    == *old(value),
            },
    {
        MapLensMut::new(self, value)
    }
}

impl<T, O: CodecOps<T>> CodecViews<T> for O {
}

} // verus!
