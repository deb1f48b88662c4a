//! The world mirror: the entities the server has spawned, keyed by entity
//! id (unique), plus the dimension tag.

use vstd::prelude::*;

use crate::entity::Entity;
use crate::packets::MetaEntry;

verus! {

/// First entity with the given id, if any.
pub open spec fn seq_lookup(s: Seq<Entity>, id: i32) -> Option<Entity>
    decreases s.len(),
{
    if s.len() == 0 {
        None
    } else if s[0].id == id {
        Some(s[0])
    } else {
        seq_lookup(s.subrange(1, s.len() as int), id)
    }
}

/// The world mirror.
pub struct World {
    pub dimension: i8,
    pub entities: Vec<Entity>,
}

impl World {
    /// Ids are unique: at most one entity per id.
    pub open spec fn wf(self) -> bool {
        forall|i: int, j: int|
            0 <= i < j < self.entities@.len() ==> self.entities@[i].id != self.entities@[j].id
    }

    pub open spec fn lookup(self, id: i32) -> Option<Entity> {
        seq_lookup(self.entities@, id)
    }

    pub open spec fn has_entity(self, id: i32) -> bool {
        self.lookup(id) is Some
    }

    /// An empty world in the overworld dimension.
    pub fn new() -> (w: World)
        ensures
            w.wf(),
            w.dimension == 0,
            forall|id: i32| !w.has_entity(id),
    {
        World { dimension: 0, entities: Vec::new() }
    }

    /// The entity with this id, if present.
    pub fn get_entity(&self, id: i32) -> (r: Option<&Entity>)
        ensures
            r is Some <==> self.has_entity(id),
            r matches Some(e) ==> self.lookup(id) == Some(*e) && e.id == id,
    {
        proof {
            assert(self.entities@.subrange(0, self.entities@.len() as int) =~= self.entities@);
        }
        let mut i: usize = 0;
        while i < self.entities.len()
            invariant
                i <= self.entities@.len(),
                seq_lookup(self.entities@, id) == seq_lookup(
                    self.entities@.subrange(i as int, self.entities@.len() as int),
                    id,
                ),
            decreases self.entities@.len() - i,
        {
            let ghost rest = self.entities@.subrange(i as int, self.entities@.len() as int);
            if self.entities[i].id == id {
                proof {
                    assert(rest[0] == self.entities@[i as int]);
                }
                return Some(&self.entities[i]);
            }
            proof {
                assert(rest[0] == self.entities@[i as int]);
                assert(rest.subrange(1, rest.len() as int) =~= self.entities@.subrange(
                    i + 1,
                    self.entities@.len() as int,
                ));
            }
            i = i + 1;
        }
        proof {
            assert(self.entities@.subrange(
                self.entities@.len() as int,
                self.entities@.len() as int,
            ) =~= Seq::<Entity>::empty());
        }
        None
    }

    /// Index of the entity with this id, if present.
    fn find_index(&self, id: i32) -> (r: Option<usize>)
        ensures
            r is Some <==> self.has_entity(id),
            r matches Some(i) ==> i < self.entities@.len() && self.entities@[i as int].id == id
                && self.lookup(id) == Some(self.entities@[i as int]) && (forall|j: int|
                0 <= j < i ==> self.entities@[j].id != id),
    {
        proof {
            assert(self.entities@.subrange(0, self.entities@.len() as int) =~= self.entities@);
        }
        let mut i: usize = 0;
        while i < self.entities.len()
            invariant
                i <= self.entities@.len(),
                forall|j: int| 0 <= j < i ==> self.entities@[j].id != id,
                seq_lookup(self.entities@, id) == seq_lookup(
                    self.entities@.subrange(i as int, self.entities@.len() as int),
                    id,
                ),
            decreases self.entities@.len() - i,
        {
            let ghost rest = self.entities@.subrange(i as int, self.entities@.len() as int);
            if self.entities[i].id == id {
                proof {
                    assert(rest[0] == self.entities@[i as int]);
                }
                return Some(i);
            }
            proof {
                assert(rest[0] == self.entities@[i as int]);
                assert(rest.subrange(1, rest.len() as int) =~= self.entities@.subrange(
                    i + 1,
                    self.entities@.len() as int,
                ));
            }
            i = i + 1;
        }
        proof {
            assert(self.entities@.subrange(
                self.entities@.len() as int,
                self.entities@.len() as int,
            ) =~= Seq::<Entity>::empty());
        }
        None
    }

    /// Insert an entity, overwriting any entity with the same id.
    pub fn insert(&mut self, e: Entity)
        requires
            old(self).wf(),
        ensures
            final(self).wf(),
            final(self).dimension == old(self).dimension,
            final(self).lookup(e.id) == Some(e),
            forall|id: i32| id != e.id ==> final(self).lookup(id) == old(self).lookup(id),
    {
        let ghost eid = e.id;
        match self.find_index(e.id) {
            Some(i) => {
                let ghost pre = self.entities@;
                self.entities.set(i, e);
                proof {
                    lemma_lookup_update(pre, i as int, e);
                    assert(forall|a: int, b: int|
                        0 <= a < b < self.entities@.len() ==> self.entities@[a].id
                            != self.entities@[b].id);
                }
            },
            None => {
                let ghost pre = self.entities@;
                proof {
                    lemma_none_absent(pre, eid);
                }
                self.entities.push(e);
                proof {
                    lemma_lookup_push(pre, e);
                    assert(forall|a: int, b: int|
                        0 <= a < b < self.entities@.len() ==> self.entities@[a].id
                            != self.entities@[b].id);
                }
            },
        }
    }

    /// Remove the entity with this id, if present.
    pub fn remove_entity(&mut self, id: i32)
        requires
            old(self).wf(),
        ensures
            final(self).wf(),
            final(self).dimension == old(self).dimension,
            final(self).lookup(id) is None,
            forall|x: i32| x != id ==> final(self).lookup(x) == old(self).lookup(x),
    {
        match self.find_index(id) {
            Some(i) => {
                let ghost pre = self.entities@;
                self.entities.remove(i);
                proof {
                    lemma_lookup_remove(pre, i as int, id);
                    assert(forall|a: int, b: int|
                        0 <= a < b < self.entities@.len() ==> self.entities@[a].id
                            != self.entities@[b].id);
                }
            },
            None => {
            },
        }
    }

    /// Apply a metadata delta to the entity with this id; drop the delta
    /// when no such entity exists.
    pub fn apply_metadata(&mut self, id: i32, delta: &Vec<MetaEntry>)
        requires
            old(self).wf(),
        ensures
            final(self).wf(),
            final(self).dimension == old(self).dimension,
            forall|x: i32| x != id ==> final(self).lookup(x) == old(self).lookup(x),
            old(self).lookup(id) is None ==> final(self).lookup(id) is None,
            old(self).lookup(id) matches Some(e) ==> final(self).lookup(id) matches Some(e2)
                && e2.id == e.id && e2.kind == e.kind && e2.coords == e.coords && e2.metadata@
                == crate::entity::apply_meta(e.metadata@, delta@),
    {
        match self.find_index(id) {
            Some(i) => {
                let ghost pre = self.entities@;
                let mut e = self.entities.remove(i);
                e.update(delta);
                self.entities.insert(i, e);
                proof {
                    assert(self.entities@ =~= pre.update(i as int, self.entities@[i as int]));
                    lemma_lookup_update(pre, i as int, self.entities@[i as int]);
                    assert(forall|a: int, b: int|
                        0 <= a < b < self.entities@.len() ==> self.entities@[a].id
                            != self.entities@[b].id);
                }
            },
            None => {
            },
        }
    }
}

/// A lookup that finds nothing means no entry holds the id.
proof fn lemma_none_absent(s: Seq<Entity>, id: i32)
    requires
        seq_lookup(s, id) is None,
    ensures
        forall|j: int| 0 <= j < s.len() ==> s[j].id != id,
    decreases s.len(),
{
    if s.len() > 0 {
        let s1 = s.subrange(1, s.len() as int);
        lemma_none_absent(s1, id);
        assert(forall|j: int| 1 <= j < s.len() ==> s[j] == s1[j - 1]);
    }
}

/// A sequence with no entry holding `id` looks `id` up to nothing.
proof fn lemma_lookup_absent(s: Seq<Entity>, id: i32)
    requires
        forall|j: int| 0 <= j < s.len() ==> s[j].id != id,
    ensures
        seq_lookup(s, id) is None,
    decreases s.len(),
{
    if s.len() > 0 {
        let s1 = s.subrange(1, s.len() as int);
        assert(forall|j: int| 0 <= j < s1.len() ==> s1[j] == s[j + 1]);
        lemma_lookup_absent(s1, id);
    }
}

/// Updating the first index holding `id` with an entity of the same id
/// moves the lookup for that id to the new entity and leaves every other
/// id's lookup alone.
proof fn lemma_lookup_update(s: Seq<Entity>, i: int, e: Entity)
    requires
        0 <= i < s.len(),
        forall|j: int| 0 <= j < i ==> s[j].id != e.id,
        s[i].id == e.id,
    ensures
        seq_lookup(s.update(i, e), e.id) == Some(e),
        forall|x: i32| x != e.id ==> seq_lookup(s.update(i, e), x) == seq_lookup(s, x),
    decreases i,
{
    let t = s.update(i, e);
    if i == 0 {
        assert(t[0] == e);
        assert(t.subrange(1, t.len() as int) =~= s.subrange(1, s.len() as int));
        assert forall|x: i32| x != e.id implies seq_lookup(t, x) == seq_lookup(s, x) by {
            assert(seq_lookup(t, x) == seq_lookup(t.subrange(1, t.len() as int), x));
            assert(seq_lookup(s, x) == seq_lookup(s.subrange(1, s.len() as int), x));
        }
    } else {
        let s1 = s.subrange(1, s.len() as int);
        assert(forall|j: int| 0 <= j < s1.len() ==> s1[j] == s[j + 1]);
        lemma_lookup_update(s1, i - 1, e);
        assert(t.subrange(1, t.len() as int) =~= s1.update(i - 1, e));
        assert(t[0] == s[0]);
        assert(s[0].id != e.id);
        assert(seq_lookup(t, e.id) == seq_lookup(s1.update(i - 1, e), e.id));
        assert forall|x: i32| x != e.id implies seq_lookup(t, x) == seq_lookup(s, x) by {
            if s[0].id == x {
            } else {
                assert(seq_lookup(t, x) == seq_lookup(s1.update(i - 1, e), x));
                assert(seq_lookup(s, x) == seq_lookup(s1, x));
            }
        }
    }
}

/// Pushing an entity whose id no entry holds adds exactly that lookup.
proof fn lemma_lookup_push(s: Seq<Entity>, e: Entity)
    requires
        forall|j: int| 0 <= j < s.len() ==> s[j].id != e.id,
    ensures
        seq_lookup(s.push(e), e.id) == Some(e),
        forall|x: i32| x != e.id ==> seq_lookup(s.push(e), x) == seq_lookup(s, x),
    decreases s.len(),
{
    let t = s.push(e);
    if s.len() == 0 {
        assert(t[0] == e);
        assert(t.subrange(1, t.len() as int) =~= Seq::<Entity>::empty());
        assert forall|x: i32| x != e.id implies seq_lookup(t, x) == seq_lookup(s, x) by {
            assert(seq_lookup(t, x) == seq_lookup(t.subrange(1, t.len() as int), x));
        }
    } else {
        let s1 = s.subrange(1, s.len() as int);
        assert(forall|j: int| 0 <= j < s1.len() ==> s1[j] == s[j + 1]);
        lemma_lookup_push(s1, e);
        assert(t.subrange(1, t.len() as int) =~= s1.push(e));
        assert(t[0] == s[0]);
        assert(seq_lookup(t, e.id) == seq_lookup(s1.push(e), e.id));
        assert forall|x: i32| x != e.id implies seq_lookup(t, x) == seq_lookup(s, x) by {
            if s[0].id == x {
            } else {
                assert(seq_lookup(t, x) == seq_lookup(s1.push(e), x));
                assert(seq_lookup(s, x) == seq_lookup(s1, x));
            }
        }
    }
}

/// Removing the first (and by uniqueness only) entry holding `id` erases
/// that lookup and leaves every other id's lookup alone.
proof fn lemma_lookup_remove(s: Seq<Entity>, i: int, id: i32)
    requires
        0 <= i < s.len(),
        forall|j: int| 0 <= j < i ==> s[j].id != id,
        s[i].id == id,
        forall|a: int, b: int| 0 <= a < b < s.len() ==> s[a].id != s[b].id,
    ensures
        seq_lookup(s.remove(i), id) is None,
        forall|x: i32| x != id ==> seq_lookup(s.remove(i), x) == seq_lookup(s, x),
    decreases i,
{
    let t = s.remove(i);
    if i == 0 {
        assert(t =~= s.subrange(1, s.len() as int));
        assert(forall|j: int| 0 <= j < t.len() ==> t[j] == s[j + 1]);
        assert(forall|j: int| 0 <= j < t.len() ==> t[j].id != id);
        lemma_lookup_absent(t, id);
        assert forall|x: i32| x != id implies seq_lookup(t, x) == seq_lookup(s, x) by {
            assert(seq_lookup(s, x) == seq_lookup(s.subrange(1, s.len() as int), x));
        }
    } else {
        let s1 = s.subrange(1, s.len() as int);
        assert(forall|j: int| 0 <= j < s1.len() ==> s1[j] == s[j + 1]);
        assert(forall|a: int, b: int| 0 <= a < b < s1.len() ==> s1[a].id != s1[b].id);
        lemma_lookup_remove(s1, i - 1, id);
        assert(t.subrange(1, t.len() as int) =~= s1.remove(i - 1));
        assert(t[0] == s[0]);
        assert(s[0].id != id);
        assert(seq_lookup(t, id) == seq_lookup(s1.remove(i - 1), id));
        assert forall|x: i32| x != id implies seq_lookup(t, x) == seq_lookup(s, x) by {
            if s[0].id == x {
            } else {
                assert(seq_lookup(t, x) == seq_lookup(s1.remove(i - 1), x));
                assert(seq_lookup(s, x) == seq_lookup(s1, x));
            }
        }
    }
}

} // verus!
