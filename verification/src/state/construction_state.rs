//! The construction plans of the rooms.
use crate::constructions::{ConstructionMatrix, Point};
use vstd::prelude::*;

verus! {

/// The construction plan of each room, by room name.
#[derive(Debug, Clone)]
pub struct ConstructionState {
    pub construction_matrices: Vec<(String, ConstructionMatrix)>,
}

impl ConstructionState {
    /// The room names, in the order their plans were made.
    pub open spec fn names(&self) -> Seq<Seq<char>> {
        self.construction_matrices@.map_values(|e: (String, ConstructionMatrix)| e.0@)
    }

    /// The plans, in the same order as the names.
    pub open spec fn plans(&self) -> Seq<ConstructionMatrix> {
        self.construction_matrices@.map_values(|e: (String, ConstructionMatrix)| e.1)
    }

    /// No room has two plans and every plan is well formed.
    pub closed spec fn wf(&self) -> bool {
        &&& forall|a: int, b: int|
            0 <= a < b < self.construction_matrices@.len() ==> (#[trigger] self.construction_matrices@[a]).0@
                != (#[trigger] self.construction_matrices@[b]).0@
        &&& forall|k: int|
            0 <= k < self.construction_matrices@.len() ==> (#[trigger] self.construction_matrices@[k]).1.wf()
    }

    /// No plans yet.
    pub fn new() -> (s: Self)
        ensures
            s.wf(),
            s.names().len() == 0,
    {
        ConstructionState { construction_matrices: Vec::new() }
    }

    /// Position of the plan of the room named `room`, if there is one.
    fn position_of(&self, room: &String) -> (r: Option<usize>)
        ensures
            match r {
                Some(i) => i < self.names().len() && self.names()[i as int] == room@,
                None => !self.names().contains(room@),
            },
    {
        let mut i: usize = 0;
        while i < self.construction_matrices.len()
            invariant
                i <= self.names().len(),
                self.names().len() == self.construction_matrices@.len(),
                forall|j: int| 0 <= j < i ==> self.names()[j] != room@,
            decreases self.construction_matrices@.len() - i,
        {
            if self.construction_matrices[i].0 == *room {
                return Some(i);
            }
            i = i + 1;
        }
        None
    }

    /// The plan of the room named `room`, made with `initial` as the first
    /// square to explore if the room has none yet.
    pub fn get_matrix_mut(&mut self, room: &String, initial: Point) -> (m: &mut ConstructionMatrix)
        requires
            old(self).wf(),
        ensures
            old(self).names().contains(room@) ==> ({
                let i = old(self).names().index_of(room@);
                &&& *m == old(self).plans()[i]
                &&& final(self).names() == old(self).names()
                &&& final(self).plans() == old(self).plans().update(i, *final(m))
            }),
            !old(self).names().contains(room@) ==> ({
                &&& m.wf()
                &&& m.todo() == seq![initial]
                &&& m.open_positions().len() == 0
                &&& m.done() == Seq::new(289, |i: int| 0u8)
                &&& final(self).names() == old(self).names().push(room@)
                &&& final(self).plans() == old(self).plans().push(*final(m))
            }),
            final(m).wf() ==> final(self).wf(),
    {
        let ghost old_names = self.names();
        let i = match self.position_of(room) {
            Some(i) => {
                proof {
                    old_names.index_of_first_ensures(room@);
                    assert(old_names.index_of(room@) == i) by {
                        let k = old_names.index_of(room@);
                        if k != i {
                            assert(old_names[k] == old_names[i as int]);
                        }
                    }
                }
                i
            },
            None => {
                let fresh = ConstructionMatrix::new().with_position(initial);
                assert(fresh.done() =~= Seq::new(289, |i: int| 0u8));
                self.construction_matrices.push((room.clone(), fresh));
                proof {
                    assert(self.names() =~= old_names.push(room@));
                    assert(self.plans() =~= old(self).plans().push(fresh));
                }
                self.construction_matrices.len() - 1
            },
        };
        proof {
            if old_names.contains(room@) {
                assert(self.names() == old_names);
            } else {
                let es = self.construction_matrices@;
                assert forall|a: int, b: int| 0 <= a < b < es.len() implies (#[trigger] es[a]).0@
                    != (#[trigger] es[b]).0@ by {
                    assert(self.names()[a] == es[a].0@ && self.names()[b] == es[b].0@);
                    if b == es.len() - 1 {
                        assert(old_names[a] == self.names()[a]);
                        assert(old_names.contains(old_names[a]));
                    } else {
                        assert(old(self).construction_matrices@[a] == es[a]);
                        assert(old(self).construction_matrices@[b] == es[b]);
                    }
                }
            }
            assert(self.wf());
        }
        let entry = &mut self.construction_matrices[i];
        &mut entry.1
    }
}

impl Default for ConstructionState {
    fn default() -> (s: Self)
        ensures
            s.wf(),
            s.names().len() == 0,
    {
        Self::new()
    }
}

} // verus!
