//! The mathematical model of a representation value.

use crate::number::Number;
use crate::result::{ErrorView, Shape};
use vstd::prelude::*;

verus! {

/// What a representation node stands for, whatever the backend that holds it.
pub ghost enum Tree {
    Number(Number),
    String(Seq<char>),
    Boolean(bool),
    List(Seq<Tree>),
    Mapping(Map<Seq<char>, Tree>),
    Unit,
}

impl Tree {
    /// The shape of the root.
    pub open spec fn shape(self) -> Shape {
        match self {
            Tree::Number(_) => Shape::Number,
            Tree::String(_) => Shape::String,
            Tree::Boolean(_) => Shape::Boolean,
            Tree::List(_) => Shape::List,
            Tree::Mapping(_) => Shape::Mapping,
            Tree::Unit => Shape::Unit,
        }
    }

    /// The entries of a map node; empty for any other shape.
    pub open spec fn entries(self) -> Map<Seq<char>, Tree> {
        match self {
            Tree::Mapping(m) => m,
            _ => Map::empty(),
        }
    }

    /// The items of a list node; empty for any other shape.
    pub open spec fn items(self) -> Seq<Tree> {
        match self {
            Tree::List(s) => s,
            _ => Seq::empty(),
        }
    }
}

/// The map that a sequence of key-value pairs builds: a later pair replaces
/// an earlier one with the same key.
pub open spec fn map_of_pairs(pairs: Seq<(Seq<char>, Tree)>) -> Map<Seq<char>, Tree>
    decreases pairs.len(),
{
    if pairs.len() == 0 {
        Map::empty()
    } else {
        map_of_pairs(pairs.drop_last()).insert(pairs.last().0, pairs.last().1)
    }
}

/// The outcome of preparing one entry of a map: left out, ready with its key
/// and tree, or failed.
pub type EntryOutcome = Option<Result<(Seq<char>, Tree), ErrorView>>;

/// The map that a sequence of entry outcomes builds, or the first failure
/// among them. Entries that were left out do not count; of two entries with
/// one key the later stays.
pub open spec fn map_of_entries(outcomes: Seq<EntryOutcome>) -> Result<
    Map<Seq<char>, Tree>,
    ErrorView,
>
    decreases outcomes.len(),
{
    if outcomes.len() == 0 {
        Ok(Map::empty())
    } else {
        match map_of_entries(outcomes.drop_last()) {
            Err(e) => Err(e),
            Ok(entries) => match outcomes.last() {
                None => Ok(entries),
                Some(Ok((key, tree))) => Ok(entries.insert(key, tree)),
                Some(Err(e)) => Err(e),
            },
        }
    }
}

/// A failure among the first `k` outcomes is the failure of the whole
/// sequence.
pub proof fn lemma_map_of_entries_prefix(outcomes: Seq<EntryOutcome>, k: int)
    requires
        0 <= k <= outcomes.len(),
        map_of_entries(outcomes.take(k)) is Err,
    ensures
        map_of_entries(outcomes) == map_of_entries(outcomes.take(k)),
    decreases outcomes.len() - k,
{
    if k < outcomes.len() {
        assert(outcomes.take(k + 1).drop_last() == outcomes.take(k));
        lemma_map_of_entries_prefix(outcomes, k + 1);
    } else {
        assert(outcomes.take(k) == outcomes);
    }
}

/// Whether `index` is the place of the last pair of `pairs` with key `key`.
pub open spec fn is_last_with_key(pairs: Seq<(Seq<char>, Tree)>, key: Seq<char>, index: int) -> bool {
    &&& 0 <= index < pairs.len()
    &&& pairs[index].0 == key
    &&& forall|j: int| index < j < pairs.len() ==> (#[trigger] pairs[j]).0 != key
}

/// Whether no pair of `pairs` has key `key`.
pub open spec fn has_no_key(pairs: Seq<(Seq<char>, Tree)>, key: Seq<char>) -> bool {
    forall|j: int| 0 <= j < pairs.len() ==> (#[trigger] pairs[j]).0 != key
}

/// The last pair with a key decides what the map holds under it.
pub proof fn lemma_map_of_pairs_last(pairs: Seq<(Seq<char>, Tree)>, key: Seq<char>, index: int)
    requires
        is_last_with_key(pairs, key, index),
    ensures
        map_of_pairs(pairs).contains_key(key),
        map_of_pairs(pairs)[key] == pairs[index].1,
    decreases pairs.len(),
{
    if index < pairs.len() - 1 {
        let front = pairs.drop_last();
        assert(pairs.last() == pairs[pairs.len() - 1]);
        assert forall|j: int| index < j < front.len() implies (#[trigger] front[j]).0 != key by {
            assert(front[j] == pairs[j]);
        }
        lemma_map_of_pairs_last(front, key, index);
    }
}

/// A key that no pair has is not in the map.
pub proof fn lemma_map_of_pairs_absent(pairs: Seq<(Seq<char>, Tree)>, key: Seq<char>)
    requires
        has_no_key(pairs, key),
    ensures
        !map_of_pairs(pairs).contains_key(key),
    decreases pairs.len(),
{
    if pairs.len() > 0 {
        let front = pairs.drop_last();
        assert(pairs.last() == pairs[pairs.len() - 1]);
        assert forall|j: int| 0 <= j < front.len() implies (#[trigger] front[j]).0 != key by {
            assert(front[j] == pairs[j]);
        }
        lemma_map_of_pairs_absent(front, key);
    }
}

/// The keys of the map are the keys of the pairs.
pub proof fn lemma_map_of_pairs_dom(pairs: Seq<(Seq<char>, Tree)>, key: Seq<char>)
    ensures
        map_of_pairs(pairs).contains_key(key) <==> exists|j: int|
            0 <= j < pairs.len() && (#[trigger] pairs[j]).0 == key,
    decreases pairs.len(),
{
    if pairs.len() > 0 {
        let front = pairs.drop_last();
        lemma_map_of_pairs_dom(front, key);
        assert(pairs.last() == pairs[pairs.len() - 1]);
        if map_of_pairs(pairs).contains_key(key) {
            if pairs.last().0 == key {
            } else {
                let j = choose|j: int| 0 <= j < front.len() && (#[trigger] front[j]).0 == key;
                assert(pairs[j] == front[j]);
            }
        }
        if exists|j: int| 0 <= j < pairs.len() && (#[trigger] pairs[j]).0 == key {
            let j = choose|j: int| 0 <= j < pairs.len() && (#[trigger] pairs[j]).0 == key;
            if j < front.len() {
                assert(front[j] == pairs[j]);
            }
        }
    }
}

/// Replacing the value of the last pair with a key replaces what the map
/// holds under that key.
pub proof fn lemma_map_of_pairs_update(
    pairs: Seq<(Seq<char>, Tree)>,
    key: Seq<char>,
    index: int,
    value: Tree,
)
    requires
        is_last_with_key(pairs, key, index),
    ensures
        map_of_pairs(pairs.update(index, (key, value))) == map_of_pairs(pairs).insert(key, value),
    decreases pairs.len(),
{
    let updated = pairs.update(index, (key, value));
    assert(pairs.last() == pairs[pairs.len() - 1]);
    assert(updated.last() == updated[updated.len() - 1]);
    if index == pairs.len() - 1 {
        assert(updated.drop_last() == pairs.drop_last());
        assert(map_of_pairs(updated) == map_of_pairs(pairs).insert(key, value));
    } else {
        let front = pairs.drop_last();
        assert forall|j: int| index < j < front.len() implies (#[trigger] front[j]).0 != key by {
            assert(front[j] == pairs[j]);
        }
        lemma_map_of_pairs_update(front, key, index, value);
        assert(updated.drop_last() == front.update(index, (key, value)));
        assert(updated.last() == pairs.last());
        assert(pairs.last().0 != key);
        assert(map_of_pairs(updated) == map_of_pairs(pairs).insert(key, value));
    }
}

/// The pairs of `pairs` whose key is not `key`, in order.
pub open spec fn without_key(pairs: Seq<(Seq<char>, Tree)>, key: Seq<char>) -> Seq<
    (Seq<char>, Tree),
>
    decreases pairs.len(),
{
    if pairs.len() == 0 {
        pairs
    } else if pairs.last().0 == key {
        without_key(pairs.drop_last(), key)
    } else {
        without_key(pairs.drop_last(), key).push(pairs.last())
    }
}

/// Dropping every pair with a key removes the key from the map and leaves
/// the rest as it was.
pub proof fn lemma_map_of_pairs_without(pairs: Seq<(Seq<char>, Tree)>, key: Seq<char>)
    ensures
        map_of_pairs(without_key(pairs, key)) == map_of_pairs(pairs).remove(key),
    decreases pairs.len(),
{
    if pairs.len() > 0 {
        let front = pairs.drop_last();
        lemma_map_of_pairs_without(front, key);
        if pairs.last().0 != key {
            assert(without_key(pairs, key).drop_last() == without_key(front, key));
        }
        assert(map_of_pairs(without_key(pairs, key)) == map_of_pairs(pairs).remove(key));
    } else {
        assert(map_of_pairs(without_key(pairs, key)) == map_of_pairs(pairs).remove(key));
    }
}

/// Among the pairs with a key there is a last one.
pub proof fn lemma_last_occurrence(pairs: Seq<(Seq<char>, Tree)>, key: Seq<char>) -> (index: int)
    requires
        exists|j: int| 0 <= j < pairs.len() && (#[trigger] pairs[j]).0 == key,
    ensures
        is_last_with_key(pairs, key, index),
    decreases pairs.len(),
{
    assert(pairs.len() > 0);
    if pairs.last().0 == key {
        pairs.len() - 1
    } else {
        let front = pairs.drop_last();
        let j = choose|j: int| 0 <= j < pairs.len() && (#[trigger] pairs[j]).0 == key;
        assert(front[j] == pairs[j]);
        let index = lemma_last_occurrence(front, key);
        assert(front[index] == pairs[index]);
        assert forall|k: int| index < k < pairs.len() implies (#[trigger] pairs[k]).0 != key by {
            if k < front.len() {
                assert(front[k] == pairs[k]);
            }
        }
        index
    }
}

} // verus!
