use vstd::prelude::*;
use vstd::std_specs::hash::obeys_key_model;

use std::collections::HashMap;
use std::hash::Hash;

use crate::random::random_index;

verus! {

broadcast use vstd::std_specs::hash::group_hash_axioms;

/// A function from a finite source set to a finite target set, drawn
/// uniformly at random when it is built and fixed from then on.
pub struct HashFunction<TSourceItem, TTargetItem> {
    map: HashMap<TSourceItem, TTargetItem>,
}

impl<TSourceItem: Hash + Eq, TTargetItem: Copy> HashFunction<TSourceItem, TTargetItem> {
    /// The function as a map from source items to target items.
    pub closed spec fn view(&self) -> Map<TSourceItem, TTargetItem> {
        self.map@
    }

    /// Draws, for each source item, a target item uniformly at random.
    pub fn new(source: Vec<TSourceItem>, target: Vec<TTargetItem>) -> (r: Self)
        requires
            target.len() > 0,
            obeys_key_model::<TSourceItem>(),
        ensures
            r.view().dom() == source@.to_set(),
            forall|s: TSourceItem| #[trigger]
                r.view().contains_key(s) ==> target@.contains(r.view()[s]),
    {
        let mut map: HashMap<TSourceItem, TTargetItem> = HashMap::new();
        let ghost source_seq = source@;
        for item in iter: source
            invariant
                target.len() > 0,
                obeys_key_model::<TSourceItem>(),
                iter.seq() == source_seq,
                map@.dom() == source_seq.subrange(0, iter.index() as int).to_set(),
                forall|s: TSourceItem| #[trigger]
                    map@.contains_key(s) ==> target@.contains(map@[s]),
        {
            let chosen = target[random_index(target.len())];
            proof {
                assert(source_seq.subrange(0, iter.index() + 1) == source_seq.subrange(
                    0,
                    iter.index() as int,
                ).push(item));
                source_seq.subrange(0, iter.index() as int).lemma_push_to_set_commute(item);
            }
            map.insert(item, chosen);
        }
        proof {
            assert(source_seq.subrange(0, source_seq.len() as int) == source_seq);
        }
        HashFunction { map }
    }

    /// The target item that `x` maps to; the same on every call.
    pub fn get_value(&self, x: &TSourceItem) -> (r: TTargetItem)
        requires
            self.view().contains_key(*x),
            obeys_key_model::<TSourceItem>(),
        ensures
            r == self.view()[*x],
    {
        *self.map.get(x).unwrap()
    }
}

} // verus!
