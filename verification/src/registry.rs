//! The registry of validators, keyed by their IDs.

use std::sync::Arc;
use vstd::hash_map::StringHashMap;
use vstd::prelude::*;

use crate::validators::DescriptorTree;

verus! {

/// `Arc::clone` gives another pointer to the same tree.
#[verifier::external_body]
fn share(tree: &Arc<DescriptorTree>) -> (shared: Arc<DescriptorTree>)
    ensures
        shared == *tree,
{
    Arc::clone(tree)
}

/// The validators by their IDs. It is filled at startup and then shared
/// between requests.
pub struct ValidatorRegistry {
    trees: StringHashMap<Arc<DescriptorTree>>,
}

impl View for ValidatorRegistry {
    type V = Map<Seq<char>, Arc<DescriptorTree>>;

    closed spec fn view(&self) -> Map<Seq<char>, Arc<DescriptorTree>> {
        self.trees@
    }
}

impl Default for ValidatorRegistry {
    fn default() -> (registry: Self)
        ensures
            registry@ == Map::<Seq<char>, Arc<DescriptorTree>>::empty(),
    {
        Self::new()
    }
}

impl ValidatorRegistry {
    /// Creates an empty registry.
    pub fn new() -> (registry: Self)
        ensures
            registry@ == Map::<Seq<char>, Arc<DescriptorTree>>::empty(),
    {
        ValidatorRegistry { trees: StringHashMap::new() }
    }

    /// Registers a validator under an ID, in place of one that was there.
    pub fn register(&mut self, id: &str, tree: DescriptorTree)
        ensures
            final(self)@ == old(self)@.insert(id@, Arc::new(tree)),
            final(self)@.contains_key(id@),
            *final(self)@[id@] == tree,
            forall|other: Seq<char>|
                other != id@ ==> #[trigger] final(self)@.contains_key(other)
                    == old(self)@.contains_key(other),
            forall|other: Seq<char>|
                other != id@ && old(self)@.contains_key(other)
                    ==> #[trigger] final(self)@[other] == old(self)@[other],
    {
        self.trees.insert(id.to_owned(), Arc::new(tree));
    }

    /// The validator under an ID, if there is one.
    pub fn get(&self, id: &str) -> (tree: Option<Arc<DescriptorTree>>)
        ensures
            match tree {
                Some(t) => self@.contains_key(id@) && t == self@[id@],
                None => !self@.contains_key(id@),
            },
    {
        match self.trees.get(id) {
            Some(tree) => Some(share(tree)),
            None => None,
        }
    }
}

/// What was registered last under an ID is what is found there, and
/// registering it leaves every other ID as it was.
pub proof fn lemma_registered_is_found(
    before: Map<Seq<char>, Arc<DescriptorTree>>,
    id: Seq<char>,
    tree: Arc<DescriptorTree>,
    other: Seq<char>,
)
    requires
        other != id,
    ensures
        before.insert(id, tree).contains_key(id),
        before.insert(id, tree)[id] == tree,
        before.insert(id, tree).contains_key(other) == before.contains_key(other),
        before.contains_key(other) ==> before.insert(id, tree)[other] == before[other],
{
}

/// A registry finds, under each ID, exactly the tree that is there, and says so
/// whenever it is asked. IDs that differ in any character are different IDs.
pub proof fn lemma_found_is_registered(
    registry: ValidatorRegistry,
    id: &str,
    first: Option<Arc<DescriptorTree>>,
    second: Option<Arc<DescriptorTree>>,
)
    requires
        call_ensures(ValidatorRegistry::get, (&registry, id), first),
        call_ensures(ValidatorRegistry::get, (&registry, id), second),
    ensures
        first == second,
        first is Some <==> registry@.dom().contains(id@),
        first matches Some(tree) ==> tree == registry@[id@],
{
}

/// A new registry finds nothing.
pub proof fn lemma_new_registry_is_empty(
    registry: ValidatorRegistry,
    id: &str,
    found: Option<Arc<DescriptorTree>>,
)
    requires
        call_ensures(ValidatorRegistry::new, (), registry),
        call_ensures(ValidatorRegistry::get, (&registry, id), found),
    ensures
        found is None,
{
}

} // verus!
