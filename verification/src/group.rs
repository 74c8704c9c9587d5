//! Groups of sprites selected together.

use vstd::prelude::*;

use crate::comms::SceneEvent;
use crate::Id;

verus! {

#[derive(Clone, Debug)]
pub struct Group {
    pub id: Id,
    pub sprites: Vec<Id>,
}

impl Group {
    pub fn new(id: Id, sprites: Vec<Id>) -> (g: Group)
        ensures
            g.id == id,
            g.sprites@ == sprites@,
    {
        Group { id, sprites }
    }

    pub fn includes(&self, sprite: Id) -> (b: bool)
        ensures
            b == self.sprites@.contains(sprite),
    {
        let mut i: usize = 0;
        while i < self.sprites.len()
            invariant
                0 <= i <= self.sprites@.len(),
                forall|j: int| 0 <= j < i ==> self.sprites@[j] != sprite,
            decreases self.sprites@.len() - i,
        {
            if self.sprites[i] == sprite {
                assert(self.sprites@[i as int] == sprite);
                return true;
            }
            i += 1;
        }
        false
    }

    /// Adds a sprite to the group unless it is already a member.
    pub fn add(&mut self, sprite: Id) -> (e: SceneEvent)
        ensures
            final(self).id == old(self).id,
            final(self).sprites@ == (if old(self).sprites@.contains(sprite) {
                old(self).sprites@
            } else {
                old(self).sprites@.push(sprite)
            }),
            e == SceneEvent::GroupAdd(old(self).id, sprite),
    {
        if !self.includes(sprite) {
            self.sprites.push(sprite);
        }
        SceneEvent::GroupAdd(self.id, sprite)
    }

    /// Removes every occurrence of a sprite from the group, keeping the
    /// others in order.
    pub fn remove(&mut self, sprite: Id) -> (e: SceneEvent)
        ensures
            final(self).id == old(self).id,
            final(self).sprites@ == old(self).sprites@.filter(|s: Id| s != sprite),
            e == SceneEvent::GroupRemove(old(self).id, sprite),
    {
        let mut kept: Vec<Id> = Vec::new();
        let mut i: usize = 0;
        while i < self.sprites.len()
            invariant
                0 <= i <= self.sprites@.len(),
                kept@ == self.sprites@.take(i as int).filter(|s: Id| s != sprite),
            decreases self.sprites@.len() - i,
        {
            proof {
                reveal_with_fuel(Seq::<_>::filter, 1);
                assert(self.sprites@.take(i + 1).drop_last() =~= self.sprites@.take(i as int));
            }
            if self.sprites[i] != sprite {
                kept.push(self.sprites[i]);
            }
            i += 1;
        }
        assert(self.sprites@.take(self.sprites@.len() as int) =~= self.sprites@);
        self.sprites = kept;
        SceneEvent::GroupRemove(self.id, sprite)
    }

    pub fn sprites(&self) -> (s: &[Id])
        ensures
            s@ == self.sprites@,
    {
        self.sprites.as_slice()
    }
}

/// Adding a sprite to a group and removing it again leaves the group
/// without that sprite and every other member in place.
pub proof fn law_group_remove_after_add(before: Seq<Id>, sprite: Id)
    ensures
        (if before.contains(sprite) { before } else { before.push(sprite) }).filter(
            |s: Id| s != sprite,
        ) == before.filter(|s: Id| s != sprite),
{
    if !before.contains(sprite) {
        reveal_with_fuel(Seq::<_>::filter, 1);
        assert(before.push(sprite).drop_last() =~= before);
    }
}

} // verus!
