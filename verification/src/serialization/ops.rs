//! The capability contract a representation backend implements.

use crate::number::Number;
use crate::result::{DataError, DataResult, ErrorView, Shape};
use crate::tree::{
    lemma_map_of_entries_prefix, map_of_entries, map_of_pairs, EntryOutcome, Tree,
};
use vstd::prelude::*;

verus! {

/// The trees of a sequence of nodes, in order, as `read` gives them.
pub open spec fn trees_of<T>(read: spec_fn(T) -> Tree, nodes: Seq<T>) -> Seq<Tree> {
    Seq::new(nodes.len(), |i: int| read(nodes[i]))
}

/// The keys and trees of a sequence of key-node pairs, in order, as `read`
/// gives them.
pub open spec fn pairs_of<T>(read: spec_fn(T) -> Tree, pairs: Seq<(String, T)>) -> Seq<
    (Seq<char>, Tree),
> {
    Seq::new(pairs.len(), |i: int| (pairs[i].0@, read(pairs[i].1)))
}

/// The error of a destructor that asked for `expected` and met `found`.
pub open spec fn mismatch(expected: Shape, found: Tree) -> ErrorView {
    ErrorView::ShapeMismatch { expected, actual: found.shape() }
}

/// What an entry handed to `create_map_special` stands for, as `read` gives
/// the tree of its node.
pub open spec fn entry_model<T>(
    read: spec_fn(T) -> Tree,
    entry: Option<DataResult<(String, T)>>,
) -> EntryOutcome {
    match entry {
        None => None,
        Some(Ok(pair)) => Some(Ok((pair.0@, read(pair.1)))),
        Some(Err(e)) => Some(Err(e@)),
    }
}

/// What the entries handed to `create_map_special` stand for, in order.
pub open spec fn entry_models<T>(
    read: spec_fn(T) -> Tree,
    entries: Seq<Option<DataResult<(String, T)>>>,
) -> Seq<EntryOutcome> {
    Seq::new(entries.len(), |i: int| entry_model(read, entries[i]))
}

/// What a representation backend can do: build nodes of the six shapes, take
/// them apart again, and reach into the children of lists and maps.
///
/// Every node stands for a [`Tree`]; each operation is specified by what it
/// does to the trees of the nodes involved.
pub trait CodecOps<T>: Clone + Sized {
    /// The tree that `node` stands for.
    spec fn tree(&self, node: T) -> Tree;

    /// A number node.
    fn create_number(&self, value: &Number) -> (node: T)
        ensures
            self.tree(node) == Tree::Number(*value),
    ;

    /// A string node.
    fn create_string(&self, value: &str) -> (node: T)
        ensures
            self.tree(node) == Tree::String(value@),
    ;

    /// A boolean node.
    fn create_boolean(&self, value: &bool) -> (node: T)
        ensures
            self.tree(node) == Tree::Boolean(*value),
    ;

    /// A list node holding `value`, in order.
    fn create_list(&self, value: Vec<T>) -> (node: T)
        ensures
            self.tree(node) == Tree::List(trees_of(|n: T| self.tree(n), value@)),
    ;

    /// A map node built from `pairs`; of two pairs with one key the later stays.
    fn create_map(&self, pairs: Vec<(String, T)>) -> (node: T)
        ensures
            self.tree(node) == Tree::Mapping(map_of_pairs(pairs_of(|n: T| self.tree(n), pairs@))),
    ;

    /// A unit node.
    fn create_unit(&self) -> (node: T)
        ensures
            self.tree(node) == Tree::Unit,
    ;

    /// The shape of `node`.
    fn shape(&self, node: &T) -> (s: Shape)
        ensures
            s == self.tree(*node).shape(),
    ;

    /// The number in a number node.
    fn get_number(&self, value: &T) -> (r: DataResult<Number>)
        ensures
            match self.tree(*value) {
                Tree::Number(n) => r == Ok::<Number, DataError>(n),
                other => r matches Err(e) && e@ == mismatch(Shape::Number, other),
            },
    ;

    /// The text in a string node.
    fn get_string(&self, value: &T) -> (r: DataResult<String>)
        ensures
            match self.tree(*value) {
                Tree::String(s) => r matches Ok(text) && text@ == s,
                other => r matches Err(e) && e@ == mismatch(Shape::String, other),
            },
    ;

    /// The truth value in a boolean node.
    fn get_boolean(&self, value: &T) -> (r: DataResult<bool>)
        ensures
            match self.tree(*value) {
                Tree::Boolean(b) => r == Ok::<bool, DataError>(b),
                other => r matches Err(e) && e@ == mismatch(Shape::Boolean, other),
            },
    ;

    /// Succeeds on a unit node.
    fn get_unit(&self, value: &T) -> (r: DataResult<()>)
        ensures
            match self.tree(*value) {
                Tree::Unit => r is Ok,
                other => r matches Err(e) && e@ == mismatch(Shape::Unit, other),
            },
    ;

    /// Owned copies of the items of a list node, in order.
    fn list_items(&self, node: &T) -> (r: DataResult<Vec<T>>)
        ensures
            match self.tree(*node) {
                Tree::List(items) => r matches Ok(nodes) && trees_of(|n: T| self.tree(n), nodes@) == items,
                other => r matches Err(e) && e@ == mismatch(Shape::List, other),
            },
    ;

    /// The item at `index` of a list node.
    fn list_get<'a>(&self, node: &'a T, index: usize) -> (r: DataResult<&'a T>)
        ensures
            match self.tree(*node) {
                Tree::List(items) => if index < items.len() {
                    r matches Ok(item) && self.tree(*item) == items[index as int]
                } else {
                    r matches Err(e) && e@ == (ErrorView::IndexOutOfBounds {
                        index: index as nat,
                        length: items.len(),
                    })
                },
                other => r matches Err(e) && e@ == mismatch(Shape::List, other),
            },
    ;

    /// The item at `index` of a list node, for writing: what is written
    /// through the reference replaces that item, and nothing else changes.
    fn list_get_mut<'a>(&self, node: &'a mut T, index: usize) -> (r: DataResult<&'a mut T>)
        ensures
            match self.tree(*old(node)) {
                Tree::List(items) => if index < items.len() {
                    r matches Ok(item) && self.tree(*item) == items[index as int] && self.tree(
                        *final(node),
                    ) == Tree::List(items.update(index as int, self.tree(*final(item))))
                } else {
                    r matches Err(e) && e@ == (ErrorView::IndexOutOfBounds {
                        index: index as nat,
                        length: items.len(),
                    }) && *final(node) == *old(node)
                },
                other => r matches Err(e) && e@ == mismatch(Shape::List, other) && *final(node)
                    == *old(node),
            },
    ;

    /// Appends `value` to a list node.
    fn list_append(&self, node: &mut T, value: T) -> (r: DataResult<()>)
        ensures
            match self.tree(*old(node)) {
                Tree::List(items) => r is Ok && self.tree(*final(node)) == Tree::List(
                    items.push(self.tree(value)),
                ),
                other => r matches Err(e) && e@ == mismatch(Shape::List, other) && *final(node)
                    == *old(node),
            },
    ;

    /// The keys of a map node, each once, in no particular order.
    fn map_keys(&self, node: &T) -> (r: DataResult<Vec<String>>)
        ensures
            match self.tree(*node) {
                Tree::Mapping(entries) => r matches Ok(keys) && {
                    let names = keys@.map_values(|k: String| k@);
                    names.no_duplicates() && names.to_set() == entries.dom()
                },
                other => r matches Err(e) && e@ == mismatch(Shape::Mapping, other),
            },
    ;

    /// The value under `key` of a map node.
    fn map_get<'a>(&self, node: &'a T, key: &str) -> (r: DataResult<&'a T>)
        ensures
            match self.tree(*node) {
                Tree::Mapping(entries) => if entries.contains_key(key@) {
                    r matches Ok(child) && self.tree(*child) == entries[key@]
                } else {
                    r matches Err(e) && e@ == ErrorView::KeyNotFound(key@)
                },
                other => r matches Err(e) && e@ == mismatch(Shape::Mapping, other),
            },
    ;

    /// The value under `key` of a map node, for writing: what is written
    /// through the reference replaces that value, and nothing else changes.
    fn map_get_mut<'a>(&self, node: &'a mut T, key: &str) -> (r: DataResult<&'a mut T>)
        ensures
            match self.tree(*old(node)) {
                Tree::Mapping(entries) => if entries.contains_key(key@) {
                    r matches Ok(child) && self.tree(*child) == entries[key@] && self.tree(
                        *final(node),
                    ) == Tree::Mapping(entries.insert(key@, self.tree(*final(child))))
                } else {
                    r matches Err(e) && e@ == ErrorView::KeyNotFound(key@) && *final(node) == *old(
                        node,
                    )
                },
                other => r matches Err(e) && e@ == mismatch(Shape::Mapping, other) && *final(node)
                    == *old(node),
            },
    ;

    /// Puts `value` under `key` in a map node, replacing what was there.
    fn map_set(&self, node: &mut T, key: &str, value: T) -> (r: DataResult<()>)
        ensures
            match self.tree(*old(node)) {
                Tree::Mapping(entries) => r is Ok && self.tree(*final(node)) == Tree::Mapping(
                    entries.insert(key@, self.tree(value)),
                ),
                other => r matches Err(e) && e@ == mismatch(Shape::Mapping, other) && *final(node)
                    == *old(node),
            },
    ;

    /// Takes the value under `key` out of a map node.
    fn map_remove(&self, node: &mut T, key: &str) -> (r: DataResult<T>)
        ensures
            match self.tree(*old(node)) {
                Tree::Mapping(entries) => if entries.contains_key(key@) {
                    r matches Ok(child) && self.tree(child) == entries[key@] && self.tree(
                        *final(node),
                    ) == Tree::Mapping(entries.remove(key@))
                } else {
                    r matches Err(e) && e@ == ErrorView::KeyNotFound(key@) && *final(node) == *old(
                        node,
                    )
                },
                other => r matches Err(e) && e@ == mismatch(Shape::Mapping, other) && *final(node)
                    == *old(node),
            },
    ;

    /// A map node from entries that may be absent or may have failed: absent
    /// entries are left out, and the first failure is returned in place of a
    /// node.
    fn create_map_special(&self, pairs: Vec<Option<DataResult<(String, T)>>>) -> (r: DataResult<T>)
        ensures
            match map_of_entries(entry_models(|n: T| self.tree(n), pairs@)) {
                Ok(entries) => r matches Ok(node) && self.tree(node) == Tree::Mapping(entries),
                Err(failure) => r matches Err(e) && e@ == failure,
            },
    {
        let ghost outcomes = entry_models(|n: T| self.tree(n), pairs@);
        let mut present: Vec<(String, T)> = Vec::new();
        proof {
            assert(pairs_of(|n: T| self.tree(n), present@) =~= Seq::empty());
        }
        for entry in iter: pairs
            invariant
                iter.seq() == pairs@,
                outcomes == entry_models(|n: T| self.tree(n), pairs@),
                map_of_entries(outcomes.take(iter.index() as int)) == Ok::<
                    Map<Seq<char>, Tree>,
                    ErrorView,
                >(map_of_pairs(pairs_of(|n: T| self.tree(n), present@))),
        {
            let ghost k = iter.index() as int;
            let ghost before = pairs_of(|n: T| self.tree(n), present@);
            proof {
                assert(outcomes.take(k + 1).drop_last() == outcomes.take(k));
                assert(outcomes.take(k + 1).last() == entry_model(|n: T| self.tree(n), entry));
            }
            match entry {
                Some(Ok(pair)) => {
                    proof {
                        let grown = pairs_of(|n: T| self.tree(n), present@.push(pair));
                        assert(grown.drop_last() =~= before);
                        assert(grown.last() == (pair.0@, self.tree(pair.1)));
                    }
                    present.push(pair);
                },
                Some(Err(e)) => {
                    proof {
                        lemma_map_of_entries_prefix(outcomes, k + 1);
                    }
                    return Err(e);
                },
                None => {},
            }
        }
        proof {
            assert(outcomes.take(pairs@.len() as int) == outcomes);
        }
        Ok(self.create_map(present))
    }
}

} // verus!
