//! Handles that name the entities owning colliders and raycasts, and the
//! store that gives them out.

use std::collections::HashMap;
use vstd::prelude::*;
use vstd::std_specs::hash::spec_keys_iter;
use vstd::std_specs::iter::IteratorSpec;
use vstd::string::StringExecFns;
use crate::errors::EngineError;

verus! {

broadcast use vstd::std_specs::hash::group_hash_axioms;

/// A lightweight handle to an entity. Two keys name the same entity exactly
/// when their indices are equal.
#[derive(Clone, Copy, Debug, PartialEq, Eq, Hash, Structural)]
pub struct ComponentKey {
    pub index: u32,
}

impl ComponentKey {
    /// The key with index zero. A store made by [`ComponentStore::new`] starts
    /// at index one, so its `insert` never gives this key out; it serves as a
    /// placeholder for an entity that is not stored yet.
    pub fn zero() -> (key: ComponentKey)
        ensures
            key.index == 0,
    {
        ComponentKey { index: 0 }
    }
}

/// The entities of a scene, each under a key of its own. Keys are given out
/// in order, starting at one.
pub struct ComponentStore<C> {
    next_idx: u32,
    components: HashMap<u32, C>,
}

impl<C> ComponentStore<C> {
    /// The stored entities, by the index of their key.
    pub closed spec fn view(&self) -> Map<u32, C> {
        self.components@
    }

    /// The index of the key that the next insertion gives out.
    pub closed spec fn next_index(&self) -> u32 {
        self.next_idx
    }

    /// An empty store. The first entity gets the key with index one.
    pub fn new() -> (store: ComponentStore<C>)
        ensures
            store@ == Map::<u32, C>::empty(),
            store.next_index() == 1,
    {
        ComponentStore { next_idx: 1, components: HashMap::new() }
    }

    /// An empty store whose first entity gets the key with index `first`. With
    /// `first` zero, the first key given out is the zero key.
    pub fn with_first_index(first: u32) -> (store: ComponentStore<C>)
        ensures
            store@ == Map::<u32, C>::empty(),
            store.next_index() == first,
    {
        ComponentStore { next_idx: first, components: HashMap::new() }
    }

    /// Stores an entity under the next key and returns that key. Once the
    /// counter stands at its largest value no key is left: the entity is
    /// refused and nothing changes.
    pub fn insert(&mut self, component: C) -> (r: Result<ComponentKey, EngineError>)
        ensures
            old(self).next_index() < u32::MAX ==> {
                &&& r == Ok::<ComponentKey, EngineError>(
                    ComponentKey { index: old(self).next_index() },
                )
                &&& final(self)@ == old(self)@.insert(old(self).next_index(), component)
                &&& final(self).next_index() == old(self).next_index() + 1
            },
            old(self).next_index() == u32::MAX ==> {
                &&& r matches Err(EngineError::MaxComponentsError { insertion_loc })
                    && insertion_loc@ == "ComponentStore::insert"@
                &&& final(self)@ == old(self)@
                &&& final(self).next_index() == old(self).next_index()
            },
    {
        if self.next_idx >= u32::MAX {
            return Err(
                EngineError::MaxComponentsError {
                    insertion_loc: String::from_str("ComponentStore::insert"),
                },
            );
        }
        let key = ComponentKey { index: self.next_idx };
        self.next_idx = self.next_idx + 1;
        self.components.insert(key.index, component);
        Ok(key)
    }

    /// Stores an entity under a key chosen by the caller and returns the
    /// entity that was stored under it before, if any. The counter is not
    /// touched.
    pub fn insert_with_key(&mut self, component: C, key_override: ComponentKey) -> (r: Option<C>)
        ensures
            final(self)@ == old(self)@.insert(key_override.index, component),
            final(self).next_index() == old(self).next_index(),
            r == if old(self)@.contains_key(key_override.index) {
                Some(old(self)@[key_override.index])
            } else {
                None
            },
    {
        self.components.insert(key_override.index, component)
    }

    /// The entity stored under `key`, if any.
    pub fn get(&self, key: &ComponentKey) -> (r: Option<&C>)
        ensures
            r == if self@.contains_key(key.index) {
                Some(&self@[key.index])
            } else {
                None
            },
    {
        self.components.get(&key.index)
    }

    /// Takes the entity stored under `key` out of the store and hands it
    /// back, if there is one.
    pub fn remove(&mut self, key: &ComponentKey) -> (r: Option<C>)
        ensures
            final(self)@ == old(self)@.remove(key.index),
            final(self).next_index() == old(self).next_index(),
            r == if old(self)@.contains_key(key.index) {
                Some(old(self)@[key.index])
            } else {
                None
            },
    {
        self.components.remove(&key.index)
    }

    /// Replaces the entity stored under `key` by what `modfunc` makes of it,
    /// and returns the new entity. Without an entity under `key` nothing is
    /// called and nothing changes.
    pub fn modify<F: Fn(C) -> C>(&mut self, key: ComponentKey, modfunc: F) -> (r: Option<&C>)
        requires
            forall|c: C| modfunc.requires((c,)),
        ensures
            final(self).next_index() == old(self).next_index(),
            old(self)@.contains_key(key.index) ==> {
                &&& r matches Some(now)
                &&& modfunc.ensures((old(self)@[key.index],), *now)
                &&& final(self)@ == old(self)@.insert(key.index, *now)
            },
            !old(self)@.contains_key(key.index) ==> r is None && final(self)@ == old(self)@,
    {
        match self.components.remove(&key.index) {
            Some(component) => {
                let modified = modfunc(component);
                self.components.insert(key.index, modified);
                proof {
                    assert(self.components@ =~= old(self).components@.insert(
                        key.index,
                        modified,
                    ));
                }
                self.components.get(&key.index)
            },
            None => {
                proof {
                    assert(self.components@ =~= old(self).components@);
                }
                None
            },
        }
    }

    /// The keys under which entities are stored, each once, in no particular
    /// order.
    pub fn keys(&self) -> (keys: Vec<ComponentKey>)
        ensures
            keys@.map_values(|k: ComponentKey| k.index).to_set() == self@.dom(),
            keys@.map_values(|k: ComponentKey| k.index).no_duplicates(),
            keys.len() == self@.dom().len(),
    {
        let mut keys: Vec<ComponentKey> = Vec::new();
        let ghost all = spec_keys_iter(&self.components).remaining().unref();
        for index in it: self.components.keys()
            invariant
                all == it.seq().unref(),
                keys@.map_values(|k: ComponentKey| k.index) == all.take(it.index()),
        {
            keys.push(ComponentKey { index: *index });
            proof {
                assert(keys@.map_values(|k: ComponentKey| k.index) =~= all.take(it.index()).push(
                    *index,
                ));
                assert(all.take(it.index() + 1) =~= all.take(it.index()).push(*index));
            }
        }
        proof {
            assert(all.take(all.len() as int) =~= all);
            assert(all.no_duplicates()) by {
                let refs = spec_keys_iter(&self.components).remaining();
                assert forall|i: int, j: int| 0 <= i < all.len() && 0 <= j < all.len() && i
                    != j implies all[i] != all[j] by {
                    assert(refs[i] != refs[j]);
                }
            }
        }
        keys
    }
}

} // verus!
