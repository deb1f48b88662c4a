//! Entities mirrored from the server: a tagged kind over the spawnable
//! variants, an id, optional position, and a metadata key-value store that
//! metadata packets patch.

use vstd::prelude::*;

use crate::packets::MetaEntry;

verus! {

/// The closed set of entity kinds the mirror distinguishes.
#[derive(Clone, Copy, PartialEq, Eq, Structural, Debug)]
pub enum EntityKind {
    Player,
    Object,
    Pig,
    Sheep,
    OtherMob,
    ItemStack,
    ExperienceOrb,
    Other,
}

/// Kind of a spawned mob, from its wire type id.
pub open spec fn spec_mob_kind(t: u8) -> EntityKind {
    if t == 90 {
        EntityKind::Pig
    } else if t == 91 {
        EntityKind::Sheep
    } else {
        EntityKind::OtherMob
    }
}

pub fn mob_kind(t: u8) -> (r: EntityKind)
    ensures
        r == spec_mob_kind(t),
{
    if t == 90 {
        EntityKind::Pig
    } else if t == 91 {
        EntityKind::Sheep
    } else {
        EntityKind::OtherMob
    }
}

/// Kind of a spawned object, from its wire type id.
pub open spec fn spec_object_kind(t: i8) -> EntityKind {
    if t == 2 {
        EntityKind::ItemStack
    } else {
        EntityKind::Object
    }
}

pub fn object_kind(t: i8) -> (r: EntityKind)
    ensures
        r == spec_object_kind(t),
{
    if t == 2 {
        EntityKind::ItemStack
    } else {
        EntityKind::Object
    }
}

/// Fixed-point position and orientation of an entity.
#[derive(Clone, Copy, PartialEq, Eq, Structural, Debug)]
pub struct Coordinates {
    pub x: i32,
    pub y: i32,
    pub z: i32,
    pub yaw: i8,
    pub pitch: i8,
}

/// One mirrored entity.
#[derive(Clone, Debug)]
pub struct Entity {
    pub id: i32,
    pub kind: EntityKind,
    pub coords: Option<Coordinates>,
    pub metadata: Vec<MetaEntry>,
}

/// Replace the first entry with the same key, or append.
pub open spec fn meta_upsert(m: Seq<MetaEntry>, e: MetaEntry) -> Seq<MetaEntry>
    decreases m.len(),
{
    if m.len() == 0 {
        seq![e]
    } else if m[0].key == e.key {
        seq![e] + m.subrange(1, m.len() as int)
    } else {
        seq![m[0]] + meta_upsert(m.subrange(1, m.len() as int), e)
    }
}

/// Apply a whole delta, entry by entry.
pub open spec fn apply_meta(m: Seq<MetaEntry>, delta: Seq<MetaEntry>) -> Seq<MetaEntry>
    decreases delta.len(),
{
    if delta.len() == 0 {
        m
    } else {
        apply_meta(meta_upsert(m, delta[0]), delta.subrange(1, delta.len() as int))
    }
}

/// Upserting where the first `i` entries miss the key and entry `i` has it
/// updates entry `i` in place.
proof fn lemma_meta_upsert_found(m: Seq<MetaEntry>, e: MetaEntry, i: int)
    requires
        0 <= i < m.len(),
        forall|j: int| 0 <= j < i ==> m[j].key != e.key,
        m[i].key == e.key,
    ensures
        meta_upsert(m, e) == m.update(i, e),
    decreases i,
{
    if i == 0 {
        assert(meta_upsert(m, e) =~= m.update(0, e));
    } else {
        let t = m.subrange(1, m.len() as int);
        assert(forall|j: int| 0 <= j < i - 1 ==> t[j] == m[j + 1]);
        lemma_meta_upsert_found(t, e, i - 1);
        assert(meta_upsert(m, e) =~= m.update(i, e));
    }
}

/// Upserting a key that no entry has appends the entry.
proof fn lemma_meta_upsert_missing(m: Seq<MetaEntry>, e: MetaEntry)
    requires
        forall|j: int| 0 <= j < m.len() ==> m[j].key != e.key,
    ensures
        meta_upsert(m, e) == m.push(e),
    decreases m.len(),
{
    if m.len() == 0 {
        assert(meta_upsert(m, e) =~= m.push(e));
    } else {
        let t = m.subrange(1, m.len() as int);
        assert(forall|j: int| 0 <= j < t.len() ==> t[j] == m[j + 1]);
        lemma_meta_upsert_missing(t, e);
        assert(meta_upsert(m, e) =~= m.push(e));
    }
}

/// Replace the first entry keyed like `e`, or append `e`.
fn upsert_entry(m: &mut Vec<MetaEntry>, e: MetaEntry)
    ensures
        final(m)@ == meta_upsert(old(m)@, e),
{
    let mut i: usize = 0;
    while i < m.len()
        invariant
            i <= m@.len(),
            m@ == old(m)@,
            forall|j: int| 0 <= j < i ==> m@[j].key != e.key,
        decreases m@.len() - i,
    {
        if m[i].key == e.key {
            m.set(i, e);
            proof {
                lemma_meta_upsert_found(old(m)@, e, i as int);
            }
            return ;
        }
        i = i + 1;
    }
    m.push(e);
    proof {
        lemma_meta_upsert_missing(old(m)@, e);
    }
}

impl Entity {
    /// A bare entity of unknown kind with no position and no metadata.
    pub fn new(id: i32) -> (e: Entity)
        ensures
            e.id == id,
            e.kind == EntityKind::Other,
            e.coords is None,
            e.metadata@ == Seq::<MetaEntry>::empty(),
    {
        let e = Entity { id, kind: EntityKind::Other, coords: None, metadata: Vec::new() };
        e
    }

    /// Patch this entity's metadata with a delta: each entry replaces the
    /// entry with its key, or is appended.
    pub fn update(&mut self, delta: &Vec<MetaEntry>)
        ensures
            final(self).metadata@ == apply_meta(old(self).metadata@, delta@),
            final(self).id == old(self).id,
            final(self).kind == old(self).kind,
            final(self).coords == old(self).coords,
    {
        proof {
            assert(delta@.subrange(0, delta@.len() as int) =~= delta@);
        }
        let mut i: usize = 0;
        while i < delta.len()
            invariant
                i <= delta@.len(),
                self.id == old(self).id,
                self.kind == old(self).kind,
                self.coords == old(self).coords,
                apply_meta(old(self).metadata@, delta@) == apply_meta(
                    self.metadata@,
                    delta@.subrange(i as int, delta@.len() as int),
                ),
            decreases delta@.len() - i,
        {
            let ghost pre = self.metadata@;
            let ghost rest = delta@.subrange(i as int, delta@.len() as int);
            upsert_entry(&mut self.metadata, delta[i]);
            proof {
                assert(rest.subrange(1, rest.len() as int) =~= delta@.subrange(
                    i + 1,
                    delta@.len() as int,
                ));
                assert(rest[0] == delta@[i as int]);
            }
            i = i + 1;
        }
        proof {
            assert(delta@.subrange(delta@.len() as int, delta@.len() as int)
                =~= Seq::<MetaEntry>::empty());
        }
    }
}

} // verus!
