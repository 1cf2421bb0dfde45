//! A tree-shaped backend held in memory.

use crate::number::Number;
use crate::result::{DataError, DataResult, Shape};
use crate::serialization::ops::{mismatch, pairs_of, trees_of, CodecOps};
use crate::tree::{
    has_no_key, is_last_with_key, lemma_map_of_pairs_absent, lemma_map_of_pairs_dom,
    lemma_last_occurrence, lemma_map_of_pairs_last, lemma_map_of_pairs_update,
    lemma_map_of_pairs_without, map_of_pairs, without_key, Tree,
};
use vstd::prelude::*;

verus! {

/// A representation value: one node of one of the six shapes, with its
/// children. A map keeps its entries in insertion order; where a key occurs
/// twice, the later entry is the one that counts.
#[derive(Debug, PartialEq, Eq)]
pub enum Json {
    Number(Number),
    String(String),
    Boolean(bool),
    List(Vec<Json>),
    Mapping(Vec<(String, Json)>),
    Unit,
}

/// The trees of the items of a list node.
pub open spec fn item_trees(items: Seq<Json>) -> Seq<Tree>
    decreases items, 0int,
{
    Seq::new(items.len(), |i: int| if 0 <= i < items.len() { items[i].tree() } else { Tree::Unit })
}

/// The keys and trees of the entries of a map node.
pub open spec fn entry_trees(entries: Seq<(String, Json)>) -> Seq<(Seq<char>, Tree)>
    decreases entries, 0int,
{
    Seq::new(
        entries.len(),
        |i: int|
            if 0 <= i < entries.len() {
                (entries[i].0@, entries[i].1.tree())
            } else {
                (Seq::empty(), Tree::Unit)
            },
    )
}

impl Json {
    /// The tree that the value stands for.
    pub open spec fn tree(self) -> Tree
        decreases self, 1int,
    {
        match self {
            Json::Number(n) => Tree::Number(n),
            Json::String(s) => Tree::String(s@),
            Json::Boolean(b) => Tree::Boolean(b),
            Json::List(items) => Tree::List(item_trees(items@)),
            Json::Mapping(entries) => Tree::Mapping(map_of_pairs(entry_trees(entries@))),
            Json::Unit => Tree::Unit,
        }
    }
}

impl Json {
    /// An independent copy of the value.
    pub fn duplicate(&self) -> (copy: Json)
        ensures
            copy.tree() == self.tree(),
        decreases *self,
    {
        match self {
            Json::Number(n) => Json::Number(*n),
            Json::String(s) => Json::String(s.clone()),
            Json::Boolean(b) => Json::Boolean(*b),
            Json::List(items) => {
                let copies = duplicate_items(items);
                Json::List(copies)
            },
            Json::Mapping(entries) => {
                let copies = duplicate_entries(entries);
                Json::Mapping(copies)
            },
            Json::Unit => Json::Unit,
        }
    }
}

/// Independent copies of `items`, in order.
pub fn duplicate_items(items: &Vec<Json>) -> (copies: Vec<Json>)
    ensures
        item_trees(copies@) == item_trees(items@),
    decreases items,
{
    let mut copies: Vec<Json> = Vec::new();
    let mut i: usize = 0;
    while i < items.len()
        invariant
            i <= items.len(),
            copies.len() == i,
            forall|j: int| 0 <= j < i ==> (#[trigger] copies@[j]).tree() == items@[j].tree(),
        decreases items.len() - i,
    {
        let child = items[i].duplicate();
        copies.push(child);
        i += 1;
    }
    assert(item_trees(copies@) =~= item_trees(items@));
    copies
}

/// Independent copies of `entries`, in order.
pub fn duplicate_entries(entries: &Vec<(String, Json)>) -> (copies: Vec<(String, Json)>)
    ensures
        entry_trees(copies@) == entry_trees(entries@),
    decreases entries,
{
    let mut copies: Vec<(String, Json)> = Vec::new();
    let mut i: usize = 0;
    while i < entries.len()
        invariant
            i <= entries.len(),
            copies.len() == i,
            forall|j: int|
                0 <= j < i ==> (#[trigger] copies@[j]).0@ == entries@[j].0@ && copies@[j].1.tree()
                    == entries@[j].1.tree(),
        decreases entries.len() - i,
    {
        let key = entries[i].0.clone();
        assert(decreases_to!(entries => entries@[i as int].1)) by {
            assert(decreases_to!(entries => entries@[i as int]));
            assert(decreases_to!(entries@[i as int] => entries@[i as int].1));
        }
        let child = entries[i].1.duplicate();
        copies.push((key, child));
        i += 1;
    }
    assert(entry_trees(copies@) =~= entry_trees(entries@));
    copies
}

/// The place of the last entry of `entries` with key `key`, if there is one.
pub fn find_last(entries: &Vec<(String, Json)>, key: &str) -> (r: Option<usize>)
    ensures
        match r {
            Some(index) => is_last_with_key(entry_trees(entries@), key@, index as int),
            None => has_no_key(entry_trees(entries@), key@),
        },
{
    let wanted = key.to_owned();
    let mut i: usize = entries.len();
    while i > 0
        invariant
            i <= entries.len(),
            wanted@ == key@,
            forall|j: int| i <= j < entries.len() ==> (#[trigger] entry_trees(entries@)[j]).0 != key@,
        decreases i,
    {
        i -= 1;
        if entries[i].0 == wanted {
            return Some(i);
        }
    }
    None
}

/// The backend over [`Json`] values.
#[derive(Clone, Copy, Debug)]
pub struct JsonOps;

impl JsonOps {
    fn wrong_shape<T>(expected: Shape, found: &Json) -> (r: DataResult<T>)
        ensures
            r matches Err(e) && e@ == mismatch(expected, found.tree()),
    {
        let actual = match found {
            Json::Number(_) => Shape::Number,
            Json::String(_) => Shape::String,
            Json::Boolean(_) => Shape::Boolean,
            Json::List(_) => Shape::List,
            Json::Mapping(_) => Shape::Mapping,
            Json::Unit => Shape::Unit,
        };
        Err(DataError::new_shape_mismatch(expected, actual))
    }
}

impl CodecOps<Json> for JsonOps {
    open spec fn tree(&self, node: Json) -> Tree {
        node.tree()
    }

    fn create_number(&self, value: &Number) -> (node: Json) {
        Json::Number(*value)
    }

    fn create_string(&self, value: &str) -> (node: Json) {
        Json::String(value.to_owned())
    }

    fn create_boolean(&self, value: &bool) -> (node: Json) {
        Json::Boolean(*value)
    }

    fn create_list(&self, value: Vec<Json>) -> (node: Json) {
        assert(item_trees(value@) =~= trees_of(|n: Json| self.tree(n), value@));
        Json::List(value)
    }

    fn create_map(&self, pairs: Vec<(String, Json)>) -> (node: Json) {
        assert(entry_trees(pairs@) =~= pairs_of(|n: Json| self.tree(n), pairs@));
        Json::Mapping(pairs)
    }

    fn create_unit(&self) -> (node: Json) {
        Json::Unit
    }

    fn shape(&self, node: &Json) -> (s: Shape) {
        match node {
            Json::Number(_) => Shape::Number,
            Json::String(_) => Shape::String,
            Json::Boolean(_) => Shape::Boolean,
            Json::List(_) => Shape::List,
            Json::Mapping(_) => Shape::Mapping,
            Json::Unit => Shape::Unit,
        }
    }

    fn get_number(&self, value: &Json) -> (r: DataResult<Number>) {
        match value {
            Json::Number(n) => Ok(*n),
            _ => Self::wrong_shape(Shape::Number, value),
        }
    }

    fn get_string(&self, value: &Json) -> (r: DataResult<String>) {
        match value {
            Json::String(s) => Ok(s.clone()),
            _ => Self::wrong_shape(Shape::String, value),
        }
    }

    fn get_boolean(&self, value: &Json) -> (r: DataResult<bool>) {
        match value {
            Json::Boolean(b) => Ok(*b),
            _ => Self::wrong_shape(Shape::Boolean, value),
        }
    }

    fn get_unit(&self, value: &Json) -> (r: DataResult<()>) {
        match value {
            Json::Unit => Ok(()),
            _ => Self::wrong_shape(Shape::Unit, value),
        }
    }

    fn list_items(&self, node: &Json) -> (r: DataResult<Vec<Json>>) {
        match node {
            Json::List(items) => {
                let copies = duplicate_items(items);
                assert(item_trees(copies@) =~= trees_of(|n: Json| self.tree(n), copies@));
                Ok(copies)
            },
            _ => Self::wrong_shape(Shape::List, node),
        }
    }

    fn list_get<'a>(&self, node: &'a Json, index: usize) -> (r: DataResult<&'a Json>) {
        match node {
            Json::List(items) => {
                if index < items.len() {
                    Ok(&items[index])
                } else {
                    Err(DataError::new_index_out_of_bounds(index, items.len()))
                }
            },
            _ => Self::wrong_shape(Shape::List, node),
        }
    }

    fn list_get_mut<'a>(&self, node: &'a mut Json, index: usize) -> (r: DataResult<&'a mut Json>) {
        match node {
            Json::List(items) => {
                if index < items.len() {
                    let ghost before = items@;
                    let item = &mut items[index];
                    proof {
                        assert(item_trees(before.update(index as int, *final(item))) =~= item_trees(
                            before,
                        ).update(index as int, final(item).tree()));
                    }
                    Ok(item)
                } else {
                    Err(DataError::new_index_out_of_bounds(index, items.len()))
                }
            },
            _ => Self::wrong_shape(Shape::List, node),
        }
    }

    fn list_append(&self, node: &mut Json, value: Json) -> (r: DataResult<()>) {
        match node {
            Json::List(items) => {
                assert(item_trees(items@.push(value)) =~= item_trees(items@).push(value.tree()));
                items.push(value);
                Ok(())
            },
            _ => Self::wrong_shape(Shape::List, node),
        }
    }

    fn map_keys(&self, node: &Json) -> (r: DataResult<Vec<String>>) {
        match node {
            Json::Mapping(entries) => Ok(distinct_keys(entries)),
            _ => Self::wrong_shape(Shape::Mapping, node),
        }
    }

    fn map_get<'a>(&self, node: &'a Json, key: &str) -> (r: DataResult<&'a Json>) {
        match node {
            Json::Mapping(entries) => {
                match find_last(entries, key) {
                    Some(index) => {
                        proof {
                            lemma_map_of_pairs_last(entry_trees(entries@), key@, index as int);
                        }
                        Ok(&entries[index].1)
                    },
                    None => {
                        proof {
                            lemma_map_of_pairs_absent(entry_trees(entries@), key@);
                        }
                        Err(DataError::new_key_not_found(key))
                    },
                }
            },
            _ => Self::wrong_shape(Shape::Mapping, node),
        }
    }

    fn map_get_mut<'a>(&self, node: &'a mut Json, key: &str) -> (r: DataResult<&'a mut Json>) {
        match node {
            Json::Mapping(entries) => {
                match find_last(entries, key) {
                    Some(index) => {
                        let ghost before = entries@;
                        let entry = &mut entries[index];
                        let child = &mut entry.1;
                        proof {
                            let pairs = entry_trees(before);
                            lemma_map_of_pairs_last(pairs, key@, index as int);
                            lemma_map_of_pairs_update(pairs, key@, index as int, final(child).tree());
                            assert(entry_trees(
                                before.update(index as int, (before[index as int].0, *final(child))),
                            ) =~= pairs.update(index as int, (key@, final(child).tree())));
                        }
                        Ok(child)
                    },
                    None => {
                        proof {
                            lemma_map_of_pairs_absent(entry_trees(entries@), key@);
                        }
                        Err(DataError::new_key_not_found(key))
                    },
                }
            },
            _ => Self::wrong_shape(Shape::Mapping, node),
        }
    }

    fn map_set(&self, node: &mut Json, key: &str, value: Json) -> (r: DataResult<()>) {
        match node {
            Json::Mapping(entries) => {
                let ghost before = entries@;
                let ghost pairs = entry_trees(before);
                match find_last(entries, key) {
                    Some(index) => {
                        proof {
                            lemma_map_of_pairs_update(pairs, key@, index as int, value.tree());
                            assert(entry_trees(
                                before.update(index as int, (before[index as int].0, value)),
                            ) =~= pairs.update(index as int, (key@, value.tree())));
                        }
                        let entry = &mut entries[index];
                        entry.1 = value;
                    },
                    None => {
                        let owned = key.to_owned();
                        proof {
                            let grown = before.push((owned, value));
                            assert(entry_trees(grown).drop_last() =~= pairs);
                            assert(entry_trees(grown).last() == (key@, value.tree()));
                        }
                        entries.push((owned, value));
                    },
                }
                Ok(())
            },
            _ => Self::wrong_shape(Shape::Mapping, node),
        }
    }

    fn map_remove(&self, node: &mut Json, key: &str) -> (r: DataResult<Json>) {
        match node {
            Json::Mapping(entries) => {
                match find_last(entries, key) {
                    Some(index) => {
                        proof {
                            lemma_map_of_pairs_last(entry_trees(entries@), key@, index as int);
                        }
                        match remove_key(entries, key) {
                            Some(taken) => Ok(taken),
                            None => Err(DataError::new_key_not_found(key)),
                        }
                    },
                    None => {
                        proof {
                            lemma_map_of_pairs_absent(entry_trees(entries@), key@);
                        }
                        Err(DataError::new_key_not_found(key))
                    },
                }
            },
            _ => Self::wrong_shape(Shape::Mapping, node),
        }
    }
}

/// The keys of `entries`, each once, in the order of their last occurrence.
pub fn distinct_keys(entries: &Vec<(String, Json)>) -> (keys: Vec<String>)
    ensures
        keys@.map_values(|k: String| k@).no_duplicates(),
        keys@.map_values(|k: String| k@).to_set() == map_of_pairs(entry_trees(entries@)).dom(),
{
    let ghost pairs = entry_trees(entries@);
    let mut keys: Vec<String> = Vec::new();
    let ghost mut origin: Seq<int> = Seq::empty();
    let mut i: usize = 0;
    while i < entries.len()
        invariant
            i <= entries.len(),
            pairs == entry_trees(entries@),
            origin.len() == keys.len(),
            forall|a: int, b: int| 0 <= a < b < origin.len() ==> origin[a] < origin[b],
            forall|k: int|
                0 <= k < origin.len() ==> 0 <= #[trigger] origin[k] < i && is_last_with_key(
                    pairs,
                    keys@[k]@,
                    origin[k],
                ),
            forall|j: int|
                0 <= j < i && is_last_with_key(pairs, pairs[j].0, j) ==> exists|k: int|
                    0 <= k < origin.len() && #[trigger] origin[k] == j,
        decreases entries.len() - i,
    {
        let found = find_last(entries, entries[i].0.as_str());
        if found == Some(i) {
            let ghost before = origin;
            keys.push(entries[i].0.clone());
            proof {
                origin = origin.push(i as int);
                assert forall|j: int|
                    0 <= j < i + 1 && is_last_with_key(pairs, pairs[j].0, j) implies exists|k: int|
                    0 <= k < origin.len() && #[trigger] origin[k] == j by {
                    if j < i {
                        let k = choose|k: int| 0 <= k < before.len() && #[trigger] before[k] == j;
                        assert(origin[k] == j);
                    } else {
                        assert(origin[origin.len() - 1] == j);
                    }
                }
            }
        } else {
            proof {
                assert(!is_last_with_key(pairs, pairs[i as int].0, i as int)) by {
                    if is_last_with_key(pairs, pairs[i as int].0, i as int) {
                        match found {
                            Some(other) => {
                                assert(pairs[other as int].0 == pairs[i as int].0);
                            },
                            None => {
                                assert(pairs[i as int].0 != pairs[i as int].0);
                            },
                        }
                    }
                }
            }
        }
        i += 1;
    }
    proof {
        let names = keys@.map_values(|k: String| k@);
        let held = map_of_pairs(pairs);
        assert forall|a: int, b: int| 0 <= a < names.len() && 0 <= b < names.len() && a != b implies names[a] != names[b] by {
            if names[a] == names[b] {
                assert(is_last_with_key(pairs, names[a], origin[a]));
                assert(is_last_with_key(pairs, names[b], origin[b]));
                if a < b {
                    assert(origin[a] < origin[b]);
                } else {
                    assert(origin[b] < origin[a]);
                }
            }
        }
        assert forall|name: Seq<char>| names.to_set().contains(name) <==> held.dom().contains(name) by {
            if names.to_set().contains(name) {
                let k = choose|k: int| 0 <= k < names.len() && names[k] == name;
                lemma_map_of_pairs_last(pairs, name, origin[k]);
            }
            if held.dom().contains(name) {
                lemma_map_of_pairs_dom(pairs, name);
                let last = lemma_last_occurrence(pairs, name);
                let k = choose|k: int| 0 <= k < origin.len() && #[trigger] origin[k] == last;
                assert(is_last_with_key(pairs, keys@[k]@, origin[k]));
                assert(names[k] == name);
            }
        }
        assert(names.to_set() =~= held.dom());
    }
    keys
}

/// Takes every entry with key `key` out of `entries` and returns the value
/// of the last of them.
pub fn remove_key(entries: &mut Vec<(String, Json)>, key: &str) -> (taken: Option<Json>)
    ensures
        map_of_pairs(entry_trees(final(entries)@)) == map_of_pairs(entry_trees(old(entries)@)).remove(
            key@,
        ),
        match taken {
            Some(value) => map_of_pairs(entry_trees(old(entries)@)).contains_key(key@)
                && value.tree() == map_of_pairs(entry_trees(old(entries)@))[key@],
            None => !map_of_pairs(entry_trees(old(entries)@)).contains_key(key@),
        },
{
    let wanted = key.to_owned();
    let ghost before = entries@;
    let ghost pairs = entry_trees(before);
    let mut all: Vec<(String, Json)> = Vec::new();
    std::mem::swap(entries, &mut all);
    let mut taken: Option<Json> = None;
    let ghost mut last: int = 0;
    proof {
        assert(without_key(pairs.take(0), key@) =~= entry_trees(entries@));
    }
    for entry in iter: all
        invariant
            iter.seq() == before,
            pairs == entry_trees(before),
            wanted@ == key@,
            entry_trees(entries@) == without_key(pairs.take(iter.index() as int), key@),
            match taken {
                Some(value) => 0 <= last < iter.index() && pairs[last].0 == key@ && value.tree()
                    == pairs[last].1 && forall|j: int|
                    last < j < iter.index() ==> (#[trigger] pairs[j]).0 != key@,
                None => forall|j: int| 0 <= j < iter.index() ==> (#[trigger] pairs[j]).0 != key@,
            },
    {
        let ghost k = iter.index() as int;
        proof {
            assert(pairs.take(k + 1).drop_last() =~= pairs.take(k));
            assert(pairs.take(k + 1).last() == pairs[k]);
            assert(pairs[k] == (entry.0@, entry.1.tree()));
        }
        if entry.0 == wanted {
            taken = Some(entry.1);
            proof {
                last = k;
            }
        } else {
            proof {
                assert(entry_trees(entries@.push(entry)) =~= entry_trees(entries@).push(pairs[k]));
            }
            entries.push(entry);
        }
    }
    proof {
        assert(pairs.take(before.len() as int) =~= pairs);
        lemma_map_of_pairs_without(pairs, key@);
        if taken is Some {
            lemma_map_of_pairs_last(pairs, key@, last);
        } else {
            lemma_map_of_pairs_absent(pairs, key@);
        }
    }
    taken
}

} // verus!
