//! The particle store: every particle with its position and velocity,
//! advanced together once per tick.

use vstd::prelude::*;
use crate::arena::Arena;
use crate::geometry::Point;
use crate::motion::{
    get_new_position, lemma_heading_mirrored, lemma_stays_inside, resolve, within_reach, Velocity,
    MAX_REACH,
};

verus! {

/// One particle: where it is and how it moves.
#[derive(Clone, Copy, Debug)]
pub struct Node {
    pub position: Point,
    pub velocity: Velocity,
}

impl Node {
    /// The position is within reach and the velocity is well formed.
    pub open spec fn wf(&self) -> bool {
        within_reach(self.position) && self.velocity.wf()
    }

    /// The particle one tick later: at the resolved position, with the
    /// heading after its last bounce and the distance of a full tick again.
    pub open spec fn advanced(self, arena: Arena) -> Node {
        Node {
            position: resolve(arena, self.position, self.velocity).0,
            velocity: Velocity {
                direction: resolve(arena, self.position, self.velocity).1,
                distance: self.velocity.distance,
            },
        }
    }

    /// Tests whether the position is within reach and the velocity is well
    /// formed.
    pub fn is_valid(&self) -> (valid: bool)
        ensures
            valid == self.wf(),
    {
        let reach: i32 = MAX_REACH;
        -reach <= self.position.0 && self.position.0 <= reach && -reach <= self.position.1
            && self.position.1 <= reach && self.velocity.is_valid()
    }

    /// Moves the particle by one tick.
    pub fn update_position(&mut self, arena: &Arena)
        requires
            arena.wf(),
            old(self).wf(),
        ensures
            *final(self) == old(self).advanced(*arena),
            final(self).velocity.wf(),
            final(self).velocity.distance == old(self).velocity.distance,
            arena.contains(old(self).position) ==> arena.contains(final(self).position)
                && final(self).wf(),
    {
        let moved: (Point, Velocity) = get_new_position(self.position, self.velocity, arena);
        self.position = moved.0;
        self.velocity = moved.1;
    }
}

/// Whether every particle is well formed.
pub open spec fn all_wf(nodes: Seq<Node>) -> bool {
    forall|i: int| 0 <= i < nodes.len() ==> (#[trigger] nodes[i]).wf()
}

/// Whether every particle is inside the arena, walls included.
pub open spec fn all_inside(nodes: Seq<Node>, arena: Arena) -> bool {
    forall|i: int| 0 <= i < nodes.len() ==> arena.contains((#[trigger] nodes[i]).position)
}

/// The store one tick later: every particle advanced, each on its own.
pub open spec fn advance_all(nodes: Seq<Node>, arena: Arena) -> Seq<Node> {
    Seq::new(nodes.len(), |i: int| nodes[i].advanced(arena))
}

/// The store after a number of ticks.
pub open spec fn after_ticks(nodes: Seq<Node>, arena: Arena, ticks: nat) -> Seq<Node>
    decreases ticks,
{
    if ticks == 0 {
        nodes
    } else {
        advance_all(after_ticks(nodes, arena, (ticks - 1) as nat), arena)
    }
}

/// A store whose particles start inside the arena holds as many particles,
/// all of them inside the arena and well formed, after any number of ticks.
pub proof fn lemma_store_stays_inside(nodes: Seq<Node>, arena: Arena, ticks: nat)
    requires
        arena.wf(),
        all_wf(nodes),
        all_inside(nodes, arena),
    ensures
        after_ticks(nodes, arena, ticks).len() == nodes.len(),
        all_inside(after_ticks(nodes, arena, ticks), arena),
        all_wf(after_ticks(nodes, arena, ticks)),
    decreases ticks,
{
    if ticks > 0 {
        let before = after_ticks(nodes, arena, (ticks - 1) as nat);
        lemma_store_stays_inside(nodes, arena, (ticks - 1) as nat);
        let after = advance_all(before, arena);
        assert forall|i: int| 0 <= i < after.len() implies arena.contains(
            (#[trigger] after[i]).position,
        ) && after[i].wf() by {
            lemma_stays_inside(arena, before[i].position, before[i].velocity);
            lemma_heading_mirrored(arena, before[i].position, before[i].velocity);
        }
    }
}

/// Moves every particle by one tick, each on its own and in the order of
/// the store.
///
/// Particles that were inside the arena are inside it afterwards, so a store
/// that starts inside stays inside tick after tick.
pub fn step_all(nodes: &mut Vec<Node>, arena: &Arena)
    requires
        arena.wf(),
        all_wf(old(nodes)@),
    ensures
        final(nodes)@ == advance_all(old(nodes)@, *arena),
        final(nodes)@.len() == old(nodes)@.len(),
        forall|i: int|
            0 <= i < old(nodes)@.len() ==> #[trigger] final(nodes)@[i] == old(nodes)@[i].advanced(
                *arena,
            ),
        all_inside(old(nodes)@, *arena) ==> all_inside(final(nodes)@, *arena) && all_wf(
            final(nodes)@,
        ),
{
    let count: usize = nodes.len();
    let mut i: usize = 0;
    while i < count
        invariant
            arena.wf(),
            i <= count,
            nodes@.len() == count,
            old(nodes)@.len() == count,
            all_wf(old(nodes)@),
            forall|j: int| 0 <= j < i ==> #[trigger] nodes@[j] == old(nodes)@[j].advanced(*arena),
            forall|j: int| i <= j < count ==> #[trigger] nodes@[j] == old(nodes)@[j],
            forall|j: int|
                0 <= j < i && arena.contains(old(nodes)@[j].position) ==> arena.contains(
                    (#[trigger] nodes@[j]).position,
                ) && nodes@[j].wf(),
        decreases count - i,
    {
        let mut node: Node = nodes[i];
        node.update_position(arena);
        nodes.set(i, node);
        i += 1;
    }
    assert(nodes@ =~= advance_all(old(nodes)@, *arena));
}

} // verus!
