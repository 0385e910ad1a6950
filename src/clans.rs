use vstd::prelude::*;
use vstd::string::StrSliceExecFns;

verus! {

/// A clan's entry: its id, and the names of its members in the order they joined.
pub type ClanEntry = (Seq<char>, Seq<Seq<char>>);

/// The names held in a vector of strings.
pub open spec fn names_of(v: Seq<String>) -> Seq<Seq<char>> {
    v.map_values(|s: String| s@)
}

/// Whether some entry carries the id `id`.
pub open spec fn has_clan(e: Seq<ClanEntry>, id: Seq<char>) -> bool {
    exists|k: int| 0 <= k < e.len() && (#[trigger] e[k]).0 == id
}

/// The position of the entry with id `id` (meaningful only when `has_clan`).
pub open spec fn clan_index(e: Seq<ClanEntry>, id: Seq<char>) -> int {
    choose|k: int| 0 <= k < e.len() && (#[trigger] e[k]).0 == id
}

/// The roster of clan `id`: empty when no member was ever added to it.
pub open spec fn roster_of(e: Seq<ClanEntry>, id: Seq<char>) -> Seq<Seq<char>> {
    if has_clan(e, id) {
        e[clan_index(e, id)].1
    } else {
        Seq::empty()
    }
}

/// Ids are unique, and a clan exists only once it has a member.
pub open spec fn entries_wf(e: Seq<ClanEntry>) -> bool {
    &&& forall|a: int, b: int| 0 <= a < b < e.len() ==> (#[trigger] e[a]).0 != (#[trigger] e[b]).0
    &&& forall|k: int| 0 <= k < e.len() ==> (#[trigger] e[k]).1.len() > 0
}

/// The entries after `name` joins clan `id`: appended to its roster, or a new
/// clan of one member at the end.
pub open spec fn with_member(e: Seq<ClanEntry>, id: Seq<char>, name: Seq<char>) -> Seq<ClanEntry> {
    if has_clan(e, id) {
        let k = clan_index(e, id);
        e.update(k, (id, e[k].1.push(name)))
    } else {
        e.push((id, seq![name]))
    }
}

/// Whether id `a` comes no later than id `b` in lexicographic order, each
/// character compared by its code point.
pub open spec fn id_le(a: Seq<char>, b: Seq<char>) -> bool
    decreases a.len(),
{
    if a.len() == 0 {
        true
    } else if b.len() == 0 {
        false
    } else if a[0] != b[0] {
        (a[0] as int) < (b[0] as int)
    } else {
        id_le(a.drop_first(), b.drop_first())
    }
}

proof fn lemma_id_le_total(a: Seq<char>, b: Seq<char>)
    ensures
        id_le(a, b) || id_le(b, a),
    decreases a.len(),
{
    if a.len() > 0 && b.len() > 0 && a[0] == b[0] {
        lemma_id_le_total(a.drop_first(), b.drop_first());
    }

}

proof fn lemma_id_le_antisymmetric(a: Seq<char>, b: Seq<char>)
    requires
        id_le(a, b),
        id_le(b, a),
    ensures
        a == b,
    decreases a.len(),
{
    if a.len() > 0 {
        lemma_id_le_antisymmetric(a.drop_first(), b.drop_first());
        assert(a =~= seq![a[0]] + a.drop_first());
        assert(b =~= seq![b[0]] + b.drop_first());
    }
}

proof fn lemma_id_le_transitive(a: Seq<char>, b: Seq<char>, c: Seq<char>)
    requires
        id_le(a, b),
        id_le(b, c),
    ensures
        id_le(a, c),
    decreases a.len(),
{
    if a.len() > 0 && b.len() > 0 && c.len() > 0 && a[0] == b[0] && b[0] == c[0] {
        lemma_id_le_transitive(a.drop_first(), b.drop_first(), c.drop_first());
    }
}

/// Whether `id` is the largest clan of `e`: no clan has more members, and
/// among the clans of as many members its id comes first.
pub open spec fn is_largest_clan(e: Seq<ClanEntry>, id: Seq<char>) -> bool {
    &&& has_clan(e, id)
    &&& forall|c: Seq<char>|
        #[trigger] has_clan(e, c) ==> roster_of(e, c).len() <= roster_of(e, id).len() && (
        roster_of(e, c).len() == roster_of(e, id).len() ==> id_le(id, c))
}

/// At most one clan is the largest.
pub proof fn lemma_largest_unique(e: Seq<ClanEntry>, a: Seq<char>, b: Seq<char>)
    requires
        is_largest_clan(e, a),
        is_largest_clan(e, b),
    ensures
        a == b,
{
    lemma_id_le_antisymmetric(a, b);
}

/// The largest clan depends on the rosters alone: two clan systems that hold
/// the same roster for every id, whatever order their clans were created in,
/// have the same largest clan.
pub proof fn lemma_largest_by_rosters(e1: Seq<ClanEntry>, e2: Seq<ClanEntry>, a: Seq<char>, b: Seq<char>)
    requires
        forall|c: Seq<char>| #[trigger] has_clan(e1, c) == has_clan(e2, c),
        forall|c: Seq<char>| #[trigger] roster_of(e1, c) == roster_of(e2, c),
        is_largest_clan(e1, a),
        is_largest_clan(e2, b),
    ensures
        a == b,
{
    assert(has_clan(e1, b) && has_clan(e2, a));
    assert(roster_of(e1, b) == roster_of(e2, b) && roster_of(e1, a) == roster_of(e2, a));
    lemma_id_le_antisymmetric(a, b);
}

/// Whether id `a` comes no later than id `b` (see `id_le`).
fn id_le_exec(a: &String, b: &String) -> (r: bool)
    ensures
        r == id_le(a@, b@),
{
    let sa = a.as_str();
    let sb = b.as_str();
    let la = sa.unicode_len();
    let lb = sb.unicode_len();
    let mut i: usize = 0;
    assert(a@.subrange(0, la as int) =~= a@);
    assert(b@.subrange(0, lb as int) =~= b@);
    while i < la && i < lb
        invariant
            i <= la,
            i <= lb,
            la == a@.len(),
            lb == b@.len(),
            sa@ == a@,
            sb@ == b@,
            id_le(a@, b@) == id_le(a@.subrange(i as int, la as int), b@.subrange(i as int, lb as int)),
        decreases la - i,
    {
        let ghost ra = a@.subrange(i as int, la as int);
        let ghost rb = b@.subrange(i as int, lb as int);
        assert(ra.drop_first() =~= a@.subrange(i + 1, la as int));
        assert(rb.drop_first() =~= b@.subrange(i + 1, lb as int));
        let ca = sa.get_char(i);
        let cb = sb.get_char(i);
        assert(ra[0] == ca && rb[0] == cb);
        if ca != cb {
            return (ca as u32) < (cb as u32);
        }
        i = i + 1;
    }
    assert(a@.subrange(i as int, la as int).len() == la - i);
    assert(b@.subrange(i as int, lb as int).len() == lb - i);
    i == la
}

/// An entry is the one its own id finds.
proof fn lemma_index_unique(e: Seq<ClanEntry>, k: int)
    requires
        entries_wf(e),
        0 <= k < e.len(),
    ensures
        has_clan(e, e[k].0),
        clan_index(e, e[k].0) == k,
        roster_of(e, e[k].0) == e[k].1,
{
    let id = e[k].0;
    assert(has_clan(e, id));
    let c = clan_index(e, id);
    if c < k {
        assert(e[c].0 != e[k].0);
    } else if k < c {
        assert(e[k].0 != e[c].0);
    }
}

proof fn lemma_with_member(e: Seq<ClanEntry>, id: Seq<char>, name: Seq<char>)
    requires
        entries_wf(e),
    ensures
        entries_wf(with_member(e, id, name)),
        forall|c: Seq<char>|
            #[trigger] roster_of(with_member(e, id, name), c) == if c == id {
                roster_of(e, c).push(name)
            } else {
                roster_of(e, c)
            },
        forall|c: Seq<char>| #[trigger] has_clan(with_member(e, id, name), c) == (has_clan(e, c) || c == id),
        with_member(e, id, name).len() == if has_clan(e, id) { e.len() } else { e.len() + 1 },
{
    let f = with_member(e, id, name);
    if has_clan(e, id) {
        let k = clan_index(e, id);
        assert(f[k].0 == e[k].0);
        assert forall|a: int, b: int| 0 <= a < b < f.len() implies (#[trigger] f[a]).0 != (#[trigger] f[b]).0 by {
            assert(f[a].0 == e[a].0 && f[b].0 == e[b].0);
        }
        assert(entries_wf(f));
    } else {
        assert forall|a: int, b: int| 0 <= a < b < f.len() implies (#[trigger] f[a]).0 != (#[trigger] f[b]).0 by {
            if b == e.len() {
                assert(f[a] == e[a]);
                assert(!(0 <= a < e.len() && e[a].0 == id));
            } else {
                assert(f[a] == e[a] && f[b] == e[b]);
            }
        }
        assert(entries_wf(f));
        assert(f[e.len() as int].0 == id);
    }
    assert forall|c: Seq<char>| #[trigger] has_clan(f, c) == (has_clan(e, c) || c == id) by {
        if has_clan(e, c) {
            let j = clan_index(e, c);
            assert(f[j].0 == e[j].0);
        }
        if has_clan(f, c) {
            let j = clan_index(f, c);
            if j < e.len() {
                assert(f[j].0 == e[j].0);
            }
        }
    }
    assert forall|c: Seq<char>|
        #[trigger] roster_of(f, c) == if c == id {
            roster_of(e, c).push(name)
        } else {
            roster_of(e, c)
        } by {
        if has_clan(f, c) {
            let j = clan_index(f, c);
            lemma_index_unique(f, j);
            if j < e.len() {
                assert(f[j].0 == e[j].0);
                lemma_index_unique(e, j);
            } else {
                assert(!has_clan(e, id));
            }
        }
    }
}

/// The clans of a beach: for each clan id, the names of its members.
///
/// The clans are kept as a list of (id, roster) pairs with unique ids rather
/// than a `HashMap`: vstd gives no key model for `String`, so nothing could be
/// proved of a map keyed by it. Every contract below speaks of the rosters by
/// id (`has_clan`, `roster_of`), never of the order the pairs are kept in.
///
/// A name is recorded as given; nothing ties it to an actual crab, and the
/// same name may be added to a clan more than once.
#[derive(Debug)]
pub struct ClanSystem {
    clans: Vec<(String, Vec<String>)>,
}

impl View for ClanSystem {
    type V = Seq<ClanEntry>;

    closed spec fn view(&self) -> Seq<ClanEntry> {
        self.clans@.map_values(|c: (String, Vec<String>)| (c.0@, names_of(c.1@)))
    }
}

impl ClanSystem {
    pub open spec fn wf(&self) -> bool {
        entries_wf(self@)
    }

    pub fn new() -> (s: ClanSystem)
        ensures
            s.wf(),
            s@ == Seq::<ClanEntry>::empty(),
    {
        let s = ClanSystem { clans: Vec::new() };
        assert(s@ =~= Seq::<ClanEntry>::empty());
        s
    }

    /// The position of clan `id` among the entries, if it exists.
    fn find_clan(&self, id: &String) -> (r: Option<usize>)
        requires
            self.wf(),
        ensures
            r matches Some(k) ==> k < self@.len() && self@[k as int].0 == id@
                && clan_index(self@, id@) == k && has_clan(self@, id@),
            r is None ==> !has_clan(self@, id@),
    {
        let mut k: usize = 0;
        while k < self.clans.len()
            invariant
                k <= self.clans@.len(),
                self@.len() == self.clans@.len(),
                entries_wf(self@),
                forall|j: int| 0 <= j < k ==> (#[trigger] self@[j]).0 != id@,
            decreases self.clans@.len() - k,
        {
            assert(self@[k as int].0 == self.clans@[k as int].0@);
            if self.clans[k].0 == *id {
                proof {
                    lemma_index_unique(self@, k as int);
                }
                return Some(k);
            }
            k = k + 1;
        }
        None
    }

    /// The names of the members of clan `clan_id`; empty for an unknown id.
    pub fn get_clan_member_names(&self, clan_id: &str) -> (r: Vec<String>)
        requires
            self.wf(),
        ensures
            names_of(r@) == roster_of(self@, clan_id@),
    {
        let id = clan_id.to_owned();
        match self.find_clan(&id) {
            Some(k) => {
                let r = self.clans[k].1.clone();
                assert(r@ =~= self.clans@[k as int].1@);
                r
            },
            None => {
                let r: Vec<String> = Vec::new();
                assert(names_of(r@) =~= Seq::<Seq<char>>::empty());
                r
            },
        }
    }

    /// The number of clans that have ever had a member. Under `wf` the ids
    /// of the entries are distinct, so this is the number of distinct ids.
    pub fn get_clan_count(&self) -> (r: usize)
        ensures
            r == self@.len(),
    {
        self.clans.len()
    }

    /// Appends `crab_name` to the roster of clan `clan_id`, creating the clan
    /// when it has no entry yet. Duplicates are kept.
    pub fn add_member(&mut self, clan_id: &str, crab_name: String)
        requires
            old(self).wf(),
        ensures
            final(self).wf(),
            final(self)@ == with_member(old(self)@, clan_id@, crab_name@),
            forall|c: Seq<char>|
                #[trigger] roster_of(final(self)@, c) == if c == clan_id@ {
                    roster_of(old(self)@, c).push(crab_name@)
                } else {
                    roster_of(old(self)@, c)
                },
            final(self)@.len() == if has_clan(old(self)@, clan_id@) {
                old(self)@.len()
            } else {
                old(self)@.len() + 1
            },
    {
        let id = clan_id.to_owned();
        proof {
            lemma_with_member(self@, id@, crab_name@);
        }
        let ghost target = with_member(self@, id@, crab_name@);
        let ghost before = self@;
        let ghost name = crab_name@;
        match self.find_clan(&id) {
            Some(k) => {
                self.clans[k].1.push(crab_name);
                assert(names_of(self.clans@[k as int].1@) =~= before[k as int].1.push(name));
                assert(self@ =~= before.update(k as int, (id@, before[k as int].1.push(name))));
            },
            None => {
                let mut roster: Vec<String> = Vec::new();
                roster.push(crab_name);
                assert(names_of(roster@) =~= seq![name]);
                self.clans.push((id, roster));
                assert(self@ =~= before.push((id@, seq![name])));
            },
        }
        assert(self@ =~= target);
    }

    /// Same as `add_member`, for a borrowed name.
    pub fn add_member_to_clan(&mut self, clan_id: &str, crab_name: &str)
        requires
            old(self).wf(),
        ensures
            final(self).wf(),
            final(self)@ == with_member(old(self)@, clan_id@, crab_name@),
            forall|c: Seq<char>|
                #[trigger] roster_of(final(self)@, c) == if c == clan_id@ {
                    roster_of(old(self)@, c).push(crab_name@)
                } else {
                    roster_of(old(self)@, c)
                },
            final(self)@.len() == if has_clan(old(self)@, clan_id@) {
                old(self)@.len()
            } else {
                old(self)@.len() + 1
            },
    {
        self.add_member(clan_id, crab_name.to_owned());
    }

    /// Another name for `add_member_to_clan`.
    pub fn add_member2(&mut self, clan_id: &str, crab_name: &str)
        requires
            old(self).wf(),
        ensures
            final(self).wf(),
            final(self)@ == with_member(old(self)@, clan_id@, crab_name@),
            forall|c: Seq<char>|
                #[trigger] roster_of(final(self)@, c) == if c == clan_id@ {
                    roster_of(old(self)@, c).push(crab_name@)
                } else {
                    roster_of(old(self)@, c)
                },
    {
        self.add_member_to_clan(clan_id, crab_name);
    }

    /// The number of members of clan `clan_id`; 0 for an unknown id.
    pub fn get_clan_member_count(&self, clan_id: &str) -> (r: usize)
        requires
            self.wf(),
        ensures
            r == roster_of(self@, clan_id@).len(),
    {
        let id = clan_id.to_owned();
        match self.find_clan(&id) {
            Some(k) => self.clans[k].1.len(),
            None => 0,
        }
    }

    /// The id of the clan with the most members, or `None` when there is no
    /// clan. Among clans of equal size the lexicographically smallest id is
    /// chosen, so the result depends on the rosters alone.
    pub fn get_largest_clan_id(&self) -> (r: Option<String>)
        requires
            self.wf(),
        ensures
            r is None <==> self@.len() == 0,
            r matches Some(id) ==> is_largest_clan(self@, id@),
    {
        if self.clans.len() == 0 {
            return None;
        }
        let mut best: usize = 0;
        let mut k: usize = 1;
        proof {
            lemma_id_le_total(self@[0].0, self@[0].0);
        }
        while k < self.clans.len()
            invariant
                1 <= k <= self.clans@.len(),
                best < k,
                self@.len() == self.clans@.len(),
                forall|j: int|
                    0 <= j < k ==> (#[trigger] self@[j]).1.len() <= self@[best as int].1.len() && (
                    self@[j].1.len() == self@[best as int].1.len() ==> id_le(
                        self@[best as int].0,
                        self@[j].0,
                    )),
            decreases self.clans@.len() - k,
        {
            let ghost e = self@;
            let ghost old_best = best as int;
            assert(e[k as int].1.len() == self.clans@[k as int].1@.len());
            assert(e[best as int].1.len() == self.clans@[best as int].1@.len());
            assert(e[k as int].0 == self.clans@[k as int].0@);
            assert(e[best as int].0 == self.clans@[best as int].0@);
            let lk = self.clans[k].1.len();
            let lb = self.clans[best].1.len();
            proof {
                lemma_id_le_total(e[k as int].0, e[k as int].0);
                lemma_id_le_total(e[k as int].0, e[old_best].0);
            }
            if lk > lb {
                best = k;
            } else if lk == lb && !id_le_exec(&self.clans[best].0, &self.clans[k].0) {
                best = k;
                assert forall|j: int|
                    0 <= j < k + 1 implies (#[trigger] e[j]).1.len() <= e[best as int].1.len() && (
                    e[j].1.len() == e[best as int].1.len() ==> id_le(e[best as int].0, e[j].0)) by {
                    if j < k && e[j].1.len() == e[best as int].1.len() {
                        lemma_id_le_transitive(e[best as int].0, e[old_best].0, e[j].0);
                    }
                }
            }
            k = k + 1;
        }
        let ghost e = self@;
        let id = self.clans[best].0.clone();
        proof {
            lemma_index_unique(e, best as int);
            assert forall|c: Seq<char>| #[trigger] has_clan(e, c) implies roster_of(e, c).len()
                <= roster_of(e, id@).len() && (roster_of(e, c).len() == roster_of(e, id@).len()
                ==> id_le(id@, c)) by {
                lemma_index_unique(e, clan_index(e, c));
            }
        }
        Some(id)
    }
}

} // verus!
