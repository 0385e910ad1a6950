use vstd::prelude::*;
use vstd::arithmetic::div_mod::lemma_fundamental_div_mod;
use crate::clans::{entries_wf, names_of, roster_of, with_member, ClanEntry, ClanSystem};
use crate::crab::{crossed, diet_of_roll, Color, Crab, Diet};

verus! {

/// Whether crab `k` is the fastest, and the first of the fastest in order.
pub open spec fn is_fastest_at(s: Seq<Crab>, k: int) -> bool {
    &&& 0 <= k < s.len()
    &&& forall|j: int| 0 <= j < s.len() ==> (#[trigger] s[j]).speed <= s[k].speed
    &&& forall|j: int| 0 <= j < k ==> (#[trigger] s[j]).speed < s[k].speed
}

/// At most one crab is the first of the fastest.
pub proof fn lemma_fastest_unique(s: Seq<Crab>, a: int, b: int)
    requires
        is_fastest_at(s, a),
        is_fastest_at(s, b),
    ensures
        a == b,
{
    if a < b {
        assert(s[a].speed < s[b].speed);
    } else if b < a {
        assert(s[b].speed < s[a].speed);
    }
}

/// The crabs called `name`, in order.
pub open spec fn crabs_named(s: Seq<Crab>, name: Seq<char>) -> Seq<Crab>
    decreases s.len(),
{
    if s.len() == 0 {
        s
    } else if s.last().name@ == name {
        crabs_named(s.drop_last(), name).push(s.last())
    } else {
        crabs_named(s.drop_last(), name)
    }
}

/// The speed of the first crab called `name`, if any.
pub open spec fn first_speed(s: Seq<Crab>, name: Seq<char>) -> Option<u32>
    decreases s.len(),
{
    if s.len() == 0 {
        None
    } else if s[0].name@ == name {
        Some(s[0].speed)
    } else {
        first_speed(s.drop_first(), name)
    }
}

/// How many of `names` resolve to a crab of `s`.
pub open spec fn resolved_count(s: Seq<Crab>, names: Seq<Seq<char>>) -> int
    decreases names.len(),
{
    if names.len() == 0 {
        0
    } else {
        resolved_count(s, names.drop_last()) + if first_speed(s, names.last()) is Some {
            1int
        } else {
            0int
        }
    }
}

/// The summed speed of the crabs that `names` resolve to.
pub open spec fn resolved_total(s: Seq<Crab>, names: Seq<Seq<char>>) -> int
    decreases names.len(),
{
    if names.len() == 0 {
        0
    } else {
        resolved_total(s, names.drop_last()) + match first_speed(s, names.last()) {
            Some(v) => v as int,
            None => 0int,
        }
    }
}

/// The outcome of a contest between a clan of `n1` resolved members of total
/// speed `t1` and one of `n2` members of total `t2`: `None` when either has no
/// member, else the id of the clan with the strictly higher average, or no winner.
pub open spec fn contest(
    t1: int,
    n1: int,
    t2: int,
    n2: int,
    id1: Seq<char>,
    id2: Seq<char>,
) -> Option<Option<Seq<char>>> {
    if n1 == 0 || n2 == 0 {
        None
    } else if t1 * n2 > t2 * n1 {
        Some(Some(id1))
    } else if t2 * n1 > t1 * n2 {
        Some(Some(id2))
    } else {
        Some(None)
    }
}

/// The contest between clans `id1` and `id2` of `e`, their members resolved among `s`.
pub open spec fn winner_of(
    s: Seq<Crab>,
    e: Seq<ClanEntry>,
    id1: Seq<char>,
    id2: Seq<char>,
) -> Option<Option<Seq<char>>> {
    let r1 = roster_of(e, id1);
    let r2 = roster_of(e, id2);
    contest(
        resolved_total(s, r1),
        resolved_count(s, r1),
        resolved_total(s, r2),
        resolved_count(s, r2),
        id1,
        id2,
    )
}

/// `a / b` against `c / d` by whole quotients, then by remainders.
proof fn lemma_compare_averages(t1: int, n1: int, t2: int, n2: int)
    requires
        t1 >= 0,
        t2 >= 0,
        n1 > 0,
        n2 > 0,
    ensures
        (t1 * n2 > t2 * n1) == (t1 / n1 > t2 / n2 || (t1 / n1 == t2 / n2 && (t1 % n1) * n2 > (t2
            % n2) * n1)),
{
    lemma_fundamental_div_mod(t1, n1);
    lemma_fundamental_div_mod(t2, n2);
    let q1 = t1 / n1;
    let r1 = t1 % n1;
    let q2 = t2 / n2;
    let r2 = t2 % n2;
    assert(0 <= r1 < n1 && 0 <= r2 < n2);
    assert(t1 * n2 - t2 * n1 == (q1 - q2) * (n1 * n2) + r1 * n2 - r2 * n1) by (nonlinear_arith)
        requires
            t1 == n1 * q1 + r1,
            t2 == n2 * q2 + r2,
    ;
    assert(r1 * n2 >= 0 && r1 * n2 < n1 * n2) by (nonlinear_arith)
        requires
            0 <= r1 < n1,
            n2 > 0,
    ;
    assert(r2 * n1 >= 0 && r2 * n1 < n1 * n2) by (nonlinear_arith)
        requires
            0 <= r2 < n2,
            n1 > 0,
    ;
    if q1 > q2 {
        assert((q1 - q2) * (n1 * n2) >= n1 * n2) by (nonlinear_arith)
            requires
                q1 - q2 >= 1,
                n1 * n2 > 0,
        ;
    } else if q1 < q2 {
        assert((q1 - q2) * (n1 * n2) <= -(n1 * n2)) by (nonlinear_arith)
            requires
                q1 - q2 <= -1,
                n1 * n2 > 0,
        ;
    } else {
        assert((q1 - q2) * (n1 * n2) == 0) by (nonlinear_arith)
            requires
                q1 == q2,
        ;
    }
}

/// Whether an average `t1 / n1` exceeds `t2 / n2`, computed without overflow.
fn average_exceeds(t1: u128, n1: usize, t2: u128, n2: usize) -> (r: bool)
    requires
        n1 > 0,
        n2 > 0,
    ensures
        r == (t1 * n2 > t2 * n1),
{
    proof {
        lemma_compare_averages(t1 as int, n1 as int, t2 as int, n2 as int);
    }
    let q1 = t1 / (n1 as u128);
    let q2 = t2 / (n2 as u128);
    if q1 != q2 {
        return q1 > q2;
    }
    let r1 = t1 % (n1 as u128);
    let r2 = t2 % (n2 as u128);
    assert(r1 * n2 < 0x1_0000_0000_0000_0000 * 0x1_0000_0000_0000_0000) by (nonlinear_arith)
        requires
            r1 < n1,
            n1 < 0x1_0000_0000_0000_0000,
            n2 < 0x1_0000_0000_0000_0000,
    ;
    assert(r2 * n1 < 0x1_0000_0000_0000_0000 * 0x1_0000_0000_0000_0000) by (nonlinear_arith)
        requires
            r2 < n2,
            n1 < 0x1_0000_0000_0000_0000,
            n2 < 0x1_0000_0000_0000_0000,
    ;
    r1 * (n2 as u128) > r2 * (n1 as u128)
}

/// A beach: its crabs in the order they arrived, and its clans.
#[derive(Debug)]
pub struct Beach {
    crabs: Vec<Crab>,
    clan_system: ClanSystem,
}

impl View for Beach {
    type V = Seq<Crab>;

    closed spec fn view(&self) -> Seq<Crab> {
        self.crabs@
    }
}

impl Beach {
    /// The clans of this beach.
    pub closed spec fn clans(&self) -> Seq<ClanEntry> {
        self.clan_system@
    }

    /// Clan ids are unique, and every clan has a member.
    pub open spec fn wf(&self) -> bool {
        entries_wf(self.clans())
    }

    pub fn new() -> (b: Beach)
        ensures
            b.wf(),
            b@ == Seq::<Crab>::empty(),
            b.clans() == Seq::<ClanEntry>::empty(),
    {
        Beach { crabs: Vec::new(), clan_system: ClanSystem::new() }
    }

    /// The number of crabs on the beach.
    pub fn size(&self) -> (r: usize)
        ensures
            r == self@.len(),
    {
        self.crabs.len()
    }

    /// Puts `crab` at the end of the beach.
    pub fn add_crab(&mut self, crab: Crab)
        ensures
            final(self)@ == old(self)@.push(crab),
            final(self).clans() == old(self).clans(),
            final(self).wf() == old(self).wf(),
    {
        self.crabs.push(crab);
    }

    pub fn get_crab(&self, index: usize) -> (r: &Crab)
        requires
            index < self@.len(),
        ensures
            *r == self@[index as int],
    {
        &self.crabs[index]
    }

    /// The crabs in the order they arrived.
    pub fn crabs(&self) -> (r: &Vec<Crab>)
        ensures
            r@ == self@,
    {
        &self.crabs
    }

    /// The fastest crab, the first of them on a tie; `None` on an empty beach.
    pub fn get_fastest_crab(&self) -> (r: Option<&Crab>)
        ensures
            r is None <==> self@.len() == 0,
            r matches Some(c) ==> exists|k: int| is_fastest_at(self@, k) && *c == self@[k],
    {
        if self.crabs.len() == 0 {
            return None;
        }
        let mut best: usize = 0;
        let mut k: usize = 1;
        while k < self.crabs.len()
            invariant
                1 <= k <= self.crabs@.len(),
                best < k,
                forall|j: int| 0 <= j < k ==> (#[trigger] self.crabs@[j]).speed <= self.crabs@[best as int].speed,
                forall|j: int| 0 <= j < best ==> (#[trigger] self.crabs@[j]).speed < self.crabs@[best as int].speed,
            decreases self.crabs@.len() - k,
        {
            if self.crabs[k].speed > self.crabs[best].speed {
                best = k;
            }
            k = k + 1;
        }
        assert(is_fastest_at(self@, best as int));
        Some(&self.crabs[best])
    }

    /// The crabs called `name`, in the order they arrived.
    pub fn find_crabs_by_name(&self, name: &str) -> (r: Vec<&Crab>)
        ensures
            r@.map_values(|c: &Crab| *c) == crabs_named(self@, name@),
    {
        let query = name.to_owned();
        let mut r: Vec<&Crab> = Vec::new();
        let mut k: usize = 0;
        while k < self.crabs.len()
            invariant
                k <= self.crabs@.len(),
                query@ == name@,
                r@.map_values(|c: &Crab| *c) == crabs_named(self.crabs@.take(k as int), name@),
            decreases self.crabs@.len() - k,
        {
            let ghost before = r@;
            assert(self.crabs@.take(k + 1).drop_last() =~= self.crabs@.take(k as int));
            assert(self.crabs@.take(k + 1).last() == self.crabs@[k as int]);
            if self.crabs[k].name == query {
                r.push(&self.crabs[k]);
                assert(r@.map_values(|c: &Crab| *c) =~= before.map_values(|c: &Crab| *c).push(
                    self.crabs@[k as int],
                ));
            }
            k = k + 1;
        }
        assert(self.crabs@.take(k as int) =~= self.crabs@);
        r
    }

    /// Adds a child of crabs `i` and `j` at the end of the beach: named `name`,
    /// of speed 1, of the parents' crossed colour, and of diet `diet`.
    pub fn breed_crabs_with_diet(&mut self, i: usize, j: usize, name: String, diet: Diet)
        requires
            i < old(self)@.len(),
            j < old(self)@.len(),
        ensures
            final(self)@ == old(self)@.push(
                Crab {
                    name,
                    speed: 1,
                    color: crossed(old(self)@[i as int].color, old(self)@[j as int].color),
                    diet,
                },
            ),
            final(self).clans() == old(self).clans(),
            final(self).wf() == old(self).wf(),
    {
        let color = Color::cross(&self.crabs[i].color, &self.crabs[j].color);
        let child = Crab::new(name, 1, color, diet);
        self.crabs.push(child);
    }

    /// Adds a child of crabs `i` and `j` at the end of the beach: named `name`,
    /// of speed 1, of the parents' crossed colour, and of a random diet.
    pub fn breed_crabs(&mut self, i: usize, j: usize, name: String)
        requires
            i < old(self)@.len(),
            j < old(self)@.len(),
        ensures
            final(self)@.len() == old(self)@.len() + 1,
            final(self)@.drop_last() == old(self)@,
            final(self)@.last().name == name,
            final(self)@.last().speed == 1,
            final(self)@.last().color == crossed(old(self)@[i as int].color, old(self)@[j as int].color),
            exists|n: u64| final(self)@.last().diet == diet_of_roll(n),
            final(self).clans() == old(self).clans(),
            final(self).wf() == old(self).wf(),
    {
        let diet = Diet::random_diet();
        self.breed_crabs_with_diet(i, j, name, diet);
        assert(self@.drop_last() =~= old(self)@);
    }

    pub fn get_clan_system(&self) -> (r: &ClanSystem)
        requires
            self.wf(),
        ensures
            r@ == self.clans(),
            r.wf(),
    {
        &self.clan_system
    }

    /// Records `crab_name` as a member of clan `clan_id`. Whether a crab of
    /// that name lives on the beach is not checked.
    pub fn add_member_to_clan(&mut self, clan_id: &str, crab_name: &str)
        requires
            old(self).wf(),
        ensures
            final(self).wf(),
            final(self)@ == old(self)@,
            final(self).clans() == with_member(old(self).clans(), clan_id@, crab_name@),
            forall|c: Seq<char>|
                #[trigger] roster_of(final(self).clans(), c) == if c == clan_id@ {
                    roster_of(old(self).clans(), c).push(crab_name@)
                } else {
                    roster_of(old(self).clans(), c)
                },
    {
        self.clan_system.add_member_to_clan(clan_id, crab_name);
    }

    /// The speed of the first crab called `name`.
    fn first_speed_of(&self, name: &String) -> (r: Option<u32>)
        ensures
            r == first_speed(self@, name@),
    {
        let mut k: usize = 0;
        assert(self.crabs@.subrange(0, self.crabs@.len() as int) =~= self.crabs@);
        while k < self.crabs.len()
            invariant
                k <= self.crabs@.len(),
                first_speed(self.crabs@, name@) == first_speed(self.crabs@.subrange(k as int, self.crabs@.len() as int), name@),
            decreases self.crabs@.len() - k,
        {
            let ghost rest = self.crabs@.subrange(k as int, self.crabs@.len() as int);
            assert(rest.drop_first() =~= self.crabs@.subrange(k + 1, self.crabs@.len() as int));
            if self.crabs[k].name == *name {
                return Some(self.crabs[k].speed);
            }
            k = k + 1;
        }
        None
    }

    /// The summed speed and the number of the members in `names` that resolve
    /// to a crab of this beach.
    fn resolve_clan(&self, names: &Vec<String>) -> (r: (u128, usize))
        ensures
            r.0 == resolved_total(self@, names_of(names@)),
            r.1 == resolved_count(self@, names_of(names@)),
    {
        let mut total: u128 = 0;
        let mut count: usize = 0;
        let mut k: usize = 0;
        while k < names.len()
            invariant
                k <= names@.len(),
                count <= k,
                total <= k * 0xffff_ffff,
                total == resolved_total(self@, names_of(names@).take(k as int)),
                count == resolved_count(self@, names_of(names@).take(k as int)),
            decreases names@.len() - k,
        {
            let ghost prefix = names_of(names@).take(k + 1);
            assert(prefix.drop_last() =~= names_of(names@).take(k as int));
            assert(prefix.last() == names@[k as int]@);
            match self.first_speed_of(&names[k]) {
                Some(v) => {
                    total = total + v as u128;
                    count = count + 1;
                },
                None => {},
            }
            k = k + 1;
        }
        assert(names_of(names@).take(k as int) =~= names_of(names@));
        (total, count)
    }

    /// The clan whose resolved members have the strictly higher average
    /// speed, `Ok(None)` on equal averages, and an error when either clan has
    /// no member that resolves to a crab of this beach.
    pub fn get_winner_clan(&self, id1: &str, id2: &str) -> (r: Result<Option<String>, String>)
        requires
            self.wf(),
        ensures
            r is Err <==> winner_of(self@, self.clans(), id1@, id2@) is None,
            r matches Err(m) ==> m@ == "Invalid clan IDs"@,
            r matches Ok(Some(w)) ==> winner_of(self@, self.clans(), id1@, id2@) == Some(Some(w@)),
            r matches Ok(None) ==> winner_of(self@, self.clans(), id1@, id2@) == Some(
                None::<Seq<char>>,
            ),
    {
        let members1 = self.clan_system.get_clan_member_names(id1);
        let members2 = self.clan_system.get_clan_member_names(id2);
        let (t1, n1) = self.resolve_clan(&members1);
        let (t2, n2) = self.resolve_clan(&members2);
        if n1 == 0 || n2 == 0 {
            return Err("Invalid clan IDs".to_owned());
        }
        if average_exceeds(t1, n1, t2, n2) {
            Ok(Some(id1.to_owned()))
        } else if average_exceeds(t2, n2, t1, n1) {
            Ok(Some(id2.to_owned()))
        } else {
            Ok(None)
        }
    }
}

} // verus!
