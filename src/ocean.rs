use vstd::prelude::*;
use crate::beach::Beach;
use crate::reef::{Prey, Reef};

verus! {

/// The speed of every minnow a new reef is stocked with.
pub const MINNOW_SPEED: u32 = 25;

/// The energy of every shrimp a new reef is stocked with.
pub const SHRIMP_ENERGY: u32 = 1;

/// The prey of a new reef: the algae first, then the minnows, the shrimp and
/// the clams.
pub open spec fn stocked(n_minnows: nat, n_shrimp: nat, n_clams: nat, n_algae: nat) -> Seq<Prey> {
    copies(Prey::Algae, n_algae) + copies(Prey::Minnow { speed: MINNOW_SPEED }, n_minnows) + copies(
        Prey::Shrimp { energy: SHRIMP_ENERGY },
        n_shrimp,
    ) + copies(Prey::Clam, n_clams)
}

/// `n` prey, each equal to `p`.
pub open spec fn copies(p: Prey, n: nat) -> Seq<Prey> {
    Seq::new(n, |i: int| p)
}

/// A new reef holds exactly the prey asked for: as many as the four counts
/// together, every minnow of speed 25 and every shrimp of energy 1.
pub proof fn lemma_stocked_contents(n_minnows: nat, n_shrimp: nat, n_clams: nat, n_algae: nat)
    ensures
        ({
            let s = stocked(n_minnows, n_shrimp, n_clams, n_algae);
            &&& s.len() == n_minnows + n_shrimp + n_clams + n_algae
            &&& forall|i: int| 0 <= i < s.len() && (#[trigger] s[i]) is Minnow ==> s[i] == (Prey::Minnow { speed: 25 })
            &&& forall|i: int| 0 <= i < s.len() && (#[trigger] s[i]) is Shrimp ==> s[i] == (Prey::Shrimp { energy: 1 })
            &&& s.filter(|p: Prey| p is Minnow).len() == n_minnows
        }),
{
    let a = copies(Prey::Algae, n_algae);
    let m = copies(Prey::Minnow { speed: MINNOW_SPEED }, n_minnows);
    let sh = copies(Prey::Shrimp { energy: SHRIMP_ENERGY }, n_shrimp);
    let c = copies(Prey::Clam, n_clams);
    let s = stocked(n_minnows, n_shrimp, n_clams, n_algae);
    assert forall|i: int| 0 <= i < s.len() implies (#[trigger] s[i]) == if i < n_algae {
        Prey::Algae
    } else if i < n_algae + n_minnows {
        Prey::Minnow { speed: MINNOW_SPEED }
    } else if i < n_algae + n_minnows + n_shrimp {
        Prey::Shrimp { energy: SHRIMP_ENERGY }
    } else {
        Prey::Clam
    } by {}
    let is_minnow = |p: Prey| p is Minnow;
    lemma_copies_filter(Prey::Algae, n_algae, is_minnow);
    lemma_copies_filter(Prey::Minnow { speed: MINNOW_SPEED }, n_minnows, is_minnow);
    lemma_copies_filter(Prey::Shrimp { energy: SHRIMP_ENERGY }, n_shrimp, is_minnow);
    lemma_copies_filter(Prey::Clam, n_clams, is_minnow);
    Seq::filter_distributes_over_add(a, m, is_minnow);
    Seq::filter_distributes_over_add(a + m, sh, is_minnow);
    Seq::filter_distributes_over_add(a + m + sh, c, is_minnow);
}

proof fn lemma_copies_filter(p: Prey, n: nat, f: spec_fn(Prey) -> bool)
    ensures
        copies(p, n).filter(f).len() == if f(p) { n } else { 0 },
    decreases n,
{
    reveal_with_fuel(Seq::filter, 1);
    if n > 0 {
        lemma_copies_filter(p, (n - 1) as nat, f);
        assert(copies(p, n).drop_last() =~= copies(p, (n - 1) as nat));
    }
}

/// A way to reach a reef of an ocean: its position among the ocean's reefs.
/// The ocean keeps every reef it creates, so a handle stays valid, and a
/// change made through it is a change of the reef that the ocean lists.
#[derive(Clone, Copy, Debug, PartialEq, Eq, Structural)]
pub struct ReefHandle {
    pub index: usize,
}

/// An ocean: its beaches, and the reefs it has created.
#[derive(Debug)]
pub struct Ocean {
    beaches: Vec<Beach>,
    reefs: Vec<Reef>,
}

impl Ocean {
    /// The beaches of the ocean, in the order they were added.
    pub closed spec fn beach_seq(&self) -> Seq<Beach> {
        self.beaches@
    }

    /// The prey of each reef of the ocean, in the order the reefs were created.
    pub closed spec fn reef_seq(&self) -> Seq<Seq<Prey>> {
        self.reefs@.map_values(|r: Reef| r@)
    }

    pub fn new() -> (o: Ocean)
        ensures
            o.beach_seq() == Seq::<Beach>::empty(),
            o.reef_seq() == Seq::<Seq<Prey>>::empty(),
    {
        let o = Ocean { beaches: Vec::new(), reefs: Vec::new() };
        assert(o.reef_seq() =~= Seq::<Seq<Prey>>::empty());
        o
    }

    pub fn add_beach(&mut self, beach: Beach)
        ensures
            final(self).beach_seq() == old(self).beach_seq().push(beach),
            final(self).reef_seq() == old(self).reef_seq(),
    {
        self.beaches.push(beach);
    }

    pub fn beaches(&self) -> (r: &Vec<Beach>)
        ensures
            r@ == self.beach_seq(),
    {
        &self.beaches
    }

    pub fn reefs(&self) -> (r: &Vec<Reef>)
        ensures
            r@.map_values(|x: Reef| x@) == self.reef_seq(),
    {
        &self.reefs
    }

    /// The reef that `h` reaches.
    pub fn reef(&self, h: ReefHandle) -> (r: &Reef)
        requires
            h.index < self.reef_seq().len(),
        ensures
            r@ == self.reef_seq()[h.index as int],
    {
        &self.reefs[h.index]
    }

    /// Places `p` on the reef that `h` reaches.
    pub fn add_prey(&mut self, h: ReefHandle, p: Prey)
        requires
            h.index < old(self).reef_seq().len(),
        ensures
            final(self).reef_seq() == old(self).reef_seq().update(
                h.index as int,
                old(self).reef_seq()[h.index as int].push(p),
            ),
            final(self).beach_seq() == old(self).beach_seq(),
    {
        let ghost before = self.reef_seq();
        self.reefs[h.index].add_prey(p);
        assert(self.reef_seq() =~= before.update(h.index as int, before[h.index as int].push(p)));
    }

    /// Takes the prey placed last from the reef that `h` reaches.
    pub fn take_prey(&mut self, h: ReefHandle) -> (r: Option<Prey>)
        requires
            h.index < old(self).reef_seq().len(),
        ensures
            ({
                let s = old(self).reef_seq()[h.index as int];
                &&& s.len() == 0 ==> r is None && final(self).reef_seq() == old(self).reef_seq()
                &&& s.len() > 0 ==> r == Some(s.last()) && final(self).reef_seq()
                    == old(self).reef_seq().update(h.index as int, s.drop_last())
            }),
            final(self).beach_seq() == old(self).beach_seq(),
    {
        let ghost before = self.reef_seq();
        let r = self.reefs[h.index].take_prey();
        assert(before[h.index as int].len() == 0 ==> self.reef_seq() =~= before);
        assert(before[h.index as int].len() > 0 ==> self.reef_seq() =~= before.update(
            h.index as int,
            before[h.index as int].drop_last(),
        ));
        r
    }

    /// Creates a reef stocked with `n_algae` algae, `n_minnows` minnows of
    /// speed 25, `n_shrimp` shrimp of energy 1 and `n_clams` clams, keeps it
    /// among the ocean's reefs, and returns a handle to it.
    pub fn generate_reef(&mut self, n_minnows: u32, n_shrimp: u32, n_clams: u32, n_algae: u32) -> (r:
        ReefHandle)
        ensures
            r.index == old(self).reef_seq().len(),
            final(self).reef_seq() == old(self).reef_seq().push(
                stocked(n_minnows as nat, n_shrimp as nat, n_clams as nat, n_algae as nat),
            ),
            final(self).beach_seq() == old(self).beach_seq(),
    {
        let mut reef = Reef::new();
        let ghost algae = copies(Prey::Algae, n_algae as nat);
        let ghost minnows = copies(Prey::Minnow { speed: MINNOW_SPEED }, n_minnows as nat);
        let ghost shrimp = copies(Prey::Shrimp { energy: SHRIMP_ENERGY }, n_shrimp as nat);
        let ghost clams = copies(Prey::Clam, n_clams as nat);
        let mut k: u32 = 0;
        while k < n_algae
            invariant
                k <= n_algae,
                algae == copies(Prey::Algae, n_algae as nat),
                reef@ == algae.take(k as int),
            decreases n_algae - k,
        {
            reef.add_prey(Prey::Algae);
            assert(reef@ =~= algae.take(k + 1));
            k = k + 1;
        }
        assert(algae.take(n_algae as int) =~= algae);
        k = 0;
        while k < n_minnows
            invariant
                k <= n_minnows,
                minnows == copies(Prey::Minnow { speed: MINNOW_SPEED }, n_minnows as nat),
                reef@ == algae + minnows.take(k as int),
            decreases n_minnows - k,
        {
            reef.add_prey(Prey::Minnow { speed: MINNOW_SPEED });
            assert(reef@ =~= algae + minnows.take(k + 1));
            k = k + 1;
        }
        assert(minnows.take(n_minnows as int) =~= minnows);
        k = 0;
        while k < n_shrimp
            invariant
                k <= n_shrimp,
                shrimp == copies(Prey::Shrimp { energy: SHRIMP_ENERGY }, n_shrimp as nat),
                reef@ == algae + minnows + shrimp.take(k as int),
            decreases n_shrimp - k,
        {
            reef.add_prey(Prey::Shrimp { energy: SHRIMP_ENERGY });
            assert(reef@ =~= algae + minnows + shrimp.take(k + 1));
            k = k + 1;
        }
        assert(shrimp.take(n_shrimp as int) =~= shrimp);
        k = 0;
        while k < n_clams
            invariant
                k <= n_clams,
                clams == copies(Prey::Clam, n_clams as nat),
                reef@ == algae + minnows + shrimp + clams.take(k as int),
            decreases n_clams - k,
        {
            reef.add_prey(Prey::Clam);
            assert(reef@ =~= algae + minnows + shrimp + clams.take(k + 1));
            k = k + 1;
        }
        assert(clams.take(n_clams as int) =~= clams);
        assert(reef@ =~= stocked(n_minnows as nat, n_shrimp as nat, n_clams as nat, n_algae as nat));
        let ghost before = self.reef_seq();
        let h = ReefHandle { index: self.reefs.len() };
        self.reefs.push(reef);
        assert(self.reef_seq() =~= before.push(
            stocked(n_minnows as nat, n_shrimp as nat, n_clams as nat, n_algae as nat),
        ));
        h
    }
}

/// The handle that `generate_reef` returns and the ocean's own list reach
/// the same reef: prey taken through the handle is gone from the reef that the
/// ocean lists at that position, and every other reef is as it was.
pub proof fn lemma_handle_shares_reef(
    o0: Ocean,
    o1: Ocean,
    o2: Ocean,
    h: ReefHandle,
    taken: Option<Prey>,
    stock: Seq<Prey>,
)
    requires
        h.index == o0.reef_seq().len(),
        o1.reef_seq() == o0.reef_seq().push(stock),
        stock.len() > 0,
        taken == Some(o1.reef_seq()[h.index as int].last()),
        o2.reef_seq() == o1.reef_seq().update(h.index as int, o1.reef_seq()[h.index as int].drop_last()),
    ensures
        o2.reef_seq().len() == o0.reef_seq().len() + 1,
        o2.reef_seq()[h.index as int] == stock.drop_last(),
        taken == Some(stock.last()),
        forall|j: int| 0 <= j < o0.reef_seq().len() ==> #[trigger] o2.reef_seq()[j] == o0.reef_seq()[j],
{
}

} // verus!
