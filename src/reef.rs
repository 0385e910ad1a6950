use vstd::prelude::*;

verus! {

/// What lives on a reef and can be eaten.
#[derive(Clone, Copy, Debug, PartialEq, Eq, Structural)]
pub enum Prey {
    Algae,
    Minnow { speed: u32 },
    Shrimp { energy: u32 },
    Clam,
}

/// A reef: the prey that live on it, in the order they were placed.
#[derive(Debug)]
pub struct Reef {
    prey: Vec<Prey>,
}

impl View for Reef {
    type V = Seq<Prey>;

    closed spec fn view(&self) -> Seq<Prey> {
        self.prey@
    }
}

impl Reef {
    pub fn new() -> (r: Reef)
        ensures
            r@ == Seq::<Prey>::empty(),
    {
        Reef { prey: Vec::new() }
    }

    /// Places `p` on the reef, after the prey already there.
    pub fn add_prey(&mut self, p: Prey)
        ensures
            final(self)@ == old(self)@.push(p),
    {
        self.prey.push(p);
    }

    /// The prey on the reef, in order.
    pub fn prey(&self) -> (r: &Vec<Prey>)
        ensures
            r@ == self@,
    {
        &self.prey
    }

    /// The number of prey on the reef.
    pub fn size(&self) -> (r: usize)
        ensures
            r == self@.len(),
    {
        self.prey.len()
    }

    /// Removes the prey placed last and hands it out; `None` on an empty reef.
    pub fn take_prey(&mut self) -> (r: Option<Prey>)
        ensures
            old(self)@.len() == 0 ==> r is None && final(self)@ == old(self)@,
            old(self)@.len() > 0 ==> r == Some(old(self)@.last()) && final(self)@ == old(self)@.drop_last(),
    {
        self.prey.pop()
    }
}

} // verus!
