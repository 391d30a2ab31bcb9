use vstd::prelude::*;

verus! {

/// Sum of the counts held by a list of entries.
pub open spec fn sum_counts(s: Seq<(String, usize)>) -> int
    decreases s.len(),
{
    if s.len() == 0 {
        0
    } else {
        sum_counts(s.drop_last()) + s.last().1 as int
    }
}

/// No two entries of the list share a name.
pub open spec fn keys_unique(s: Seq<(String, usize)>) -> bool {
    forall|i: int, j: int|
        #![trigger s[i], s[j]]
        0 <= i < s.len() && 0 <= j < s.len() && i != j ==> s[i].0@ != s[j].0@
}

/// Some entry of the list is stored under `k`.
pub open spec fn has_key(s: Seq<(String, usize)>, k: Seq<char>) -> bool {
    exists|i: int| 0 <= i < s.len() && s[i].0@ == k
}

/// The mapping that a list of entries stands for.
pub open spec fn entries_view(s: Seq<(String, usize)>) -> Map<Seq<char>, nat> {
    Map::new(
        |k: Seq<char>| has_key(s, k),
        |k: Seq<char>| s[choose|i: int| 0 <= i < s.len() && s[i].0@ == k].1 as nat,
    )
}

/// Sum of the values that `m` holds under the names of `keys`.
pub open spec fn sum_over(m: Map<Seq<char>, nat>, keys: Seq<Seq<char>>) -> int
    decreases keys.len(),
{
    if keys.len() == 0 {
        0
    } else {
        sum_over(m, keys.drop_last()) + m[keys.last()] as int
    }
}

/// The counter of `k` in `m`: zero where it is absent.
pub open spec fn count_in(m: Map<Seq<char>, nat>, k: Seq<char>) -> nat {
    if m.contains_key(k) {
        m[k]
    } else {
        0
    }
}

/// `m` after adding `n` to the counter of `k`.
pub open spec fn after_add(m: Map<Seq<char>, nat>, k: Seq<char>, n: nat) -> Map<Seq<char>, nat> {
    if n == 0 {
        m
    } else {
        m.insert(k, count_in(m, k) + n)
    }
}

/// `m` after taking one from the counter of `k`: an absent name stays
/// absent, and a counter at one is removed.
pub open spec fn after_decrement(m: Map<Seq<char>, nat>, k: Seq<char>) -> Map<Seq<char>, nat> {
    if count_in(m, k) == 0 {
        m
    } else if count_in(m, k) == 1 {
        m.remove(k)
    } else {
        m.insert(k, (count_in(m, k) - 1) as nat)
    }
}

/// How much the entries of `ps` stored under `k` add up to.
pub open spec fn pairs_count(ps: Seq<(String, usize)>, k: Seq<char>) -> int
    decreases ps.len(),
{
    if ps.len() == 0 {
        0
    } else {
        pairs_count(ps.drop_last(), k) + if ps.last().0@ == k {
            ps.last().1 as int
        } else {
            0int
        }
    }
}

/// The counters that a list of name and count stands for: the counts of
/// each name added up, names that add up to zero left out.
pub open spec fn pairs_view(ps: Seq<(String, usize)>) -> Map<Seq<char>, nat> {
    Map::new(|k: Seq<char>| pairs_count(ps, k) > 0, |k: Seq<char>| pairs_count(ps, k) as nat)
}

proof fn lemma_view_at(s: Seq<(String, usize)>, i: int)
    requires
        keys_unique(s),
        0 <= i < s.len(),
    ensures
        entries_view(s).contains_key(s[i].0@),
        entries_view(s)[s[i].0@] == s[i].1 as nat,
{
    let k = s[i].0@;
    assert(0 <= i < s.len() && s[i].0@ == k);
    assert(has_key(s, k));
    let j = choose|j: int| 0 <= j < s.len() && s[j].0@ == k;
    assert(s[j].0@ == s[i].0@);
}

proof fn lemma_sum_push(s: Seq<(String, usize)>, e: (String, usize))
    ensures
        sum_counts(s.push(e)) == sum_counts(s) + e.1,
{
    assert(s.push(e).drop_last() =~= s);
}

proof fn lemma_sum_update(s: Seq<(String, usize)>, i: int, e: (String, usize))
    requires
        0 <= i < s.len(),
    ensures
        sum_counts(s.update(i, e)) == sum_counts(s) - s[i].1 + e.1,
    decreases s.len(),
{
    let u = s.update(i, e);
    if i == s.len() - 1 {
        assert(u.drop_last() =~= s.drop_last());
    } else {
        assert(u.drop_last() =~= s.drop_last().update(i, e));
        lemma_sum_update(s.drop_last(), i, e);
    }
}

proof fn lemma_sum_remove(s: Seq<(String, usize)>, i: int)
    requires
        0 <= i < s.len(),
    ensures
        sum_counts(s.remove(i)) == sum_counts(s) - s[i].1,
    decreases s.len(),
{
    let r = s.remove(i);
    if i == s.len() - 1 {
        assert(r =~= s.drop_last());
    } else {
        assert(r.drop_last() =~= s.drop_last().remove(i));
        assert(r.last() == s.last());
        lemma_sum_remove(s.drop_last(), i);
    }
}

proof fn lemma_count_le_sum(s: Seq<(String, usize)>, i: int)
    requires
        0 <= i < s.len(),
    ensures
        s[i].1 <= sum_counts(s),
    decreases s.len(),
{
    lemma_sum_nonneg(s.drop_last());
    if i < s.len() - 1 {
        lemma_count_le_sum(s.drop_last(), i);
    }
}

proof fn lemma_sum_nonneg(s: Seq<(String, usize)>)
    ensures
        sum_counts(s) >= 0,
    decreases s.len(),
{
    if s.len() > 0 {
        lemma_sum_nonneg(s.drop_last());
    }
}

/// The counters of the quests: a mapping from a quest's name to how many
/// times it was nodded. A name that is absent counts as zero, and no entry
/// ever holds zero.
pub struct NodCounters {
    entries: Vec<(String, usize)>,
}

impl View for NodCounters {
    type V = Map<Seq<char>, nat>;

    closed spec fn view(&self) -> Map<Seq<char>, nat> {
        entries_view(self.entries@)
    }
}

impl NodCounters {
    /// Names are unique, every stored count is at least one, and the sum of
    /// all counts fits in a `usize`.
    pub closed spec fn wf(&self) -> bool {
        &&& keys_unique(self.entries@)
        &&& forall|i: int| 0 <= i < self.entries@.len() ==> self.entries@[i].1 >= 1
        &&& sum_counts(self.entries@) <= usize::MAX
    }

    /// The names that hold a counter, each once, in the order they were
    /// first counted.
    pub closed spec fn names(&self) -> Seq<Seq<char>> {
        self.entries@.map_values(|e: (String, usize)| e.0@)
    }

    /// Sum of all counters.
    pub closed spec fn total_spec(&self) -> int {
        sum_counts(self.entries@)
    }

    /// The counter of `name`: zero where it is absent.
    pub open spec fn count(&self, name: Seq<char>) -> nat {
        count_in(self@, name)
    }

    /// The entries as a list of name and count, in the order the names
    /// were first counted.
    pub closed spec fn pairs_spec(&self) -> Seq<(String, usize)> {
        self.entries@
    }

    /// No counter at all.
    pub fn new() -> (r: NodCounters)
        ensures
            r.wf(),
            r@ == Map::<Seq<char>, nat>::empty(),
            r.total_spec() == 0,
    {
        let r = NodCounters { entries: Vec::new() };
        assert(r@ =~= Map::<Seq<char>, nat>::empty());
        r
    }

    fn find(&self, name: &String) -> (r: Option<usize>)
        requires
            self.wf(),
        ensures
            match r {
                Some(i) => i < self.entries@.len() && self.entries@[i as int].0@ == name@,
                None => !self@.contains_key(name@),
            },
    {
        let mut i: usize = 0;
        while i < self.entries.len()
            invariant
                i <= self.entries@.len(),
                forall|j: int| 0 <= j < i ==> self.entries@[j].0@ != name@,
            decreases self.entries@.len() - i,
        {
            if self.entries[i].0 == *name {
                return Some(i);
            }
            i = i + 1;
        }
        None
    }

    /// The counter of `name`, zero where it has none.
    pub fn get(&self, name: &String) -> (r: usize)
        requires
            self.wf(),
        ensures
            r == self.count(name@),
    {
        match self.find(name) {
            Some(i) => {
                proof {
                    lemma_view_at(self.entries@, i as int);
                }
                self.entries[i].1
            },
            None => 0,
        }
    }

    /// Whether no quest holds a counter.
    pub fn is_empty(&self) -> (r: bool)
        requires
            self.wf(),
        ensures
            r == (self@ == Map::<Seq<char>, nat>::empty()),
    {
        if self.entries.len() == 0 {
            assert(self@ =~= Map::<Seq<char>, nat>::empty());
            true
        } else {
            proof {
                lemma_view_at(self.entries@, 0);
                assert(!(self@ =~= Map::<Seq<char>, nat>::empty()));
            }
            false
        }
    }

    /// Adds one to the counter of `name`, storing one where it had none.
    pub fn increment(&mut self, name: &String)
        requires
            old(self).wf(),
            old(self).total_spec() < usize::MAX,
        ensures
            final(self).wf(),
            final(self)@ == old(self)@.insert(name@, old(self).count(name@) + 1),
            final(self).total_spec() == old(self).total_spec() + 1,
    {
        self.add(name, 1);
    }

    /// Adds `n` to the counter of `name`; adding zero changes nothing.
    pub fn add(&mut self, name: &String, n: usize)
        requires
            old(self).wf(),
            old(self).total_spec() + n <= usize::MAX,
        ensures
            final(self).wf(),
            final(self)@ == after_add(old(self)@, name@, n as nat),
            final(self).total_spec() == old(self).total_spec() + n,
    {
        if n == 0 {
            return;
        }
        let ghost s = self.entries@;
        match self.find(name) {
            Some(i) => {
                proof {
                    lemma_count_le_sum(s, i as int);
                    lemma_view_at(s, i as int);
                }
                let v = self.entries[i].1;
                self.entries.set(i, (name.clone(), v + n));
                proof {
                    let t = self.entries@;
                    lemma_sum_update(s, i as int, t[i as int]);
                    assert(keys_unique(t)) by {
                        assert forall|a: int, b: int|
                            0 <= a < t.len() && 0 <= b < t.len() && a != b implies t[a].0@
                            != t[b].0@ by {
                            assert(t[a].0@ == s[a].0@);
                            assert(t[b].0@ == s[b].0@);
                        }
                    }
                    assert forall|k: Seq<char>| has_key(t, k) == has_key(s, k) by {
                        if has_key(s, k) {
                            let j = choose|j: int| 0 <= j < s.len() && s[j].0@ == k;
                            assert(t[j].0@ == k);
                        }
                        if has_key(t, k) {
                            let j = choose|j: int| 0 <= j < t.len() && t[j].0@ == k;
                            assert(s[j].0@ == k);
                        }
                    }
                    assert forall|k: Seq<char>| #[trigger]
                        entries_view(t).contains_key(k) implies entries_view(t)[k]
                        == old(self)@.insert(name@, (old(self).count(name@) + n) as nat)[k] by {
                        let j = choose|j: int| 0 <= j < t.len() && t[j].0@ == k;
                        lemma_view_at(t, j);
                        if j != i {
                            lemma_view_at(s, j);
                        }
                    }
                    assert(self@ =~= old(self)@.insert(name@, (old(self).count(name@) + n) as nat));
                }
            },
            None => {
                self.entries.push((name.clone(), n));
                proof {
                    let t = self.entries@;
                    lemma_sum_push(s, t.last());
                    assert(keys_unique(t)) by {
                        assert forall|a: int, b: int|
                            0 <= a < t.len() && 0 <= b < t.len() && a != b implies t[a].0@
                            != t[b].0@ by {
                            if a < s.len() && b < s.len() {
                                assert(t[a] == s[a]);
                                assert(t[b] == s[b]);
                            } else if a < s.len() {
                                assert(t[a] == s[a]);
                                assert(!has_key(s, name@));
                            } else if b < s.len() {
                                assert(t[b] == s[b]);
                                assert(!has_key(s, name@));
                            }
                        }
                    }
                    assert forall|k: Seq<char>|
                        has_key(t, k) == (has_key(s, k) || k == name@) by {
                        if has_key(s, k) {
                            let j = choose|j: int| 0 <= j < s.len() && s[j].0@ == k;
                            assert(t[j] == s[j]);
                        }
                        if k == name@ {
                            assert(t[s.len() as int].0@ == k);
                        }
                        if has_key(t, k) && k != name@ {
                            let j = choose|j: int| 0 <= j < t.len() && t[j].0@ == k;
                            assert(t[j] == s[j]);
                        }
                    }
                    assert forall|k: Seq<char>| #[trigger]
                        entries_view(t).contains_key(k) implies entries_view(t)[k]
                        == old(self)@.insert(name@, n as nat)[k] by {
                        let j = choose|j: int| 0 <= j < t.len() && t[j].0@ == k;
                        lemma_view_at(t, j);
                        if j < s.len() {
                            assert(t[j] == s[j]);
                            lemma_view_at(s, j);
                        }
                    }
                    assert(self@ =~= old(self)@.insert(name@, (old(self).count(name@) + n) as nat));
                }
            },
        }
    }

    /// Takes one from the counter of `name`: an absent name stays absent,
    /// and a counter at one is removed rather than set to zero.
    pub fn decrement(&mut self, name: &String)
        requires
            old(self).wf(),
        ensures
            final(self).wf(),
            final(self)@ == after_decrement(old(self)@, name@),
            final(self).total_spec() == old(self).total_spec() - if old(self).count(name@) > 0 {
                1int
            } else {
                0int
            },
    {
        let ghost s = self.entries@;
        match self.find(name) {
            Some(i) => {
                proof {
                    lemma_view_at(s, i as int);
                }
                let v = self.entries[i].1;
                if v == 1 {
                    self.entries.remove(i);
                    proof {
                        let t = self.entries@;
                        lemma_sum_remove(s, i as int);
                        assert forall|a: int| 0 <= a < t.len() implies #[trigger] t[a] == (if a
                            < i {
                            s[a]
                        } else {
                            s[a + 1]
                        }) by {}
                        assert(keys_unique(t)) by {
                            assert forall|a: int, b: int|
                                0 <= a < t.len() && 0 <= b < t.len() && a != b implies t[a].0@
                                != t[b].0@ by {
                                let sa = if a < i {
                                    a
                                } else {
                                    a + 1
                                };
                                let sb = if b < i {
                                    b
                                } else {
                                    b + 1
                                };
                                assert(t[a] == s[sa]);
                                assert(t[b] == s[sb]);
                            }
                        }
                        assert forall|k: Seq<char>|
                            has_key(t, k) == (has_key(s, k) && k != name@) by {
                            if has_key(s, k) && k != name@ {
                                let j = choose|j: int| 0 <= j < s.len() && s[j].0@ == k;
                                assert(j != i);
                                if j < i {
                                    assert(t[j] == s[j]);
                                } else {
                                    assert(t[j - 1] == s[j]);
                                }
                            }
                            if has_key(t, k) {
                                let j = choose|j: int| 0 <= j < t.len() && t[j].0@ == k;
                                if j < i {
                                    assert(t[j] == s[j]);
                                    assert(j != i);
                                } else {
                                    assert(t[j] == s[j + 1]);
                                }
                            }
                        }
                        assert forall|k: Seq<char>| #[trigger]
                            entries_view(t).contains_key(k) implies entries_view(t)[k]
                            == old(self)@.remove(name@)[k] by {
                            let j = choose|j: int| 0 <= j < t.len() && t[j].0@ == k;
                            lemma_view_at(t, j);
                            if j < i {
                                assert(t[j] == s[j]);
                                lemma_view_at(s, j);
                            } else {
                                assert(t[j] == s[j + 1]);
                                lemma_view_at(s, j + 1);
                            }
                        }
                        assert(self@ =~= old(self)@.remove(name@));
                    }
                } else {
                    self.entries.set(i, (name.clone(), v - 1));
                    proof {
                        let t = self.entries@;
                        lemma_sum_update(s, i as int, t[i as int]);
                        assert(keys_unique(t)) by {
                            assert forall|a: int, b: int|
                                0 <= a < t.len() && 0 <= b < t.len() && a != b implies t[a].0@
                                != t[b].0@ by {
                                assert(t[a].0@ == s[a].0@);
                                assert(t[b].0@ == s[b].0@);
                            }
                        }
                        assert forall|k: Seq<char>| has_key(t, k) == has_key(s, k) by {
                            if has_key(s, k) {
                                let j = choose|j: int| 0 <= j < s.len() && s[j].0@ == k;
                                assert(t[j].0@ == k);
                            }
                            if has_key(t, k) {
                                let j = choose|j: int| 0 <= j < t.len() && t[j].0@ == k;
                                assert(s[j].0@ == k);
                            }
                        }
                        assert forall|k: Seq<char>| #[trigger]
                            entries_view(t).contains_key(k) implies entries_view(t)[k]
                            == old(self)@.insert(name@, (old(self).count(name@) - 1) as nat)[k] by {
                            let j = choose|j: int| 0 <= j < t.len() && t[j].0@ == k;
                            lemma_view_at(t, j);
                            if j != i {
                                lemma_view_at(s, j);
                            }
                        }
                        assert(self@ =~= old(self)@.insert(
                            name@,
                            (old(self).count(name@) - 1) as nat,
                        ));
                    }
                }
            },
            None => {},
        }
    }

    /// Sum of all counters.
    pub fn total(&self) -> (r: usize)
        requires
            self.wf(),
        ensures
            r == self.total_spec(),
    {
        let mut sum: usize = 0;
        let mut i: usize = 0;
        while i < self.entries.len()
            invariant
                self.wf(),
                i <= self.entries@.len(),
                sum == sum_counts(self.entries@.take(i as int)),
            decreases self.entries@.len() - i,
        {
            proof {
                let s = self.entries@;
                assert(s.take(i + 1).drop_last() =~= s.take(i as int));
                lemma_sum_le_prefix(s, i + 1);
            }
            sum = sum + self.entries[i].1;
            i = i + 1;
        }
        assert(self.entries@.take(i as int) =~= self.entries@);
        sum
    }

    /// The entries as a list of name and count, each name once.
    pub fn pairs(&self) -> (r: Vec<(String, usize)>)
        requires
            self.wf(),
        ensures
            r@ == self.pairs_spec(),
    {
        let mut r: Vec<(String, usize)> = Vec::new();
        let mut i: usize = 0;
        while i < self.entries.len()
            invariant
                i <= self.entries@.len(),
                r@ == self.entries@.take(i as int),
            decreases self.entries@.len() - i,
        {
            let name = self.entries[i].0.clone();
            r.push((name, self.entries[i].1));
            i = i + 1;
            assert(r@ =~= self.entries@.take(i as int));
        }
        assert(r@ =~= self.entries@);
        r
    }

    /// The counters that a list of name and count stands for (see
    /// `pairs_view`), or `None` where the counts add up to more than a
    /// `usize` holds.
    pub fn from_pairs(pairs: &Vec<(String, usize)>) -> (r: Option<NodCounters>)
        ensures
            r is Some <==> sum_counts(pairs@) <= usize::MAX,
            r matches Some(c) ==> c.wf() && c@ == pairs_view(pairs@) && c.total_spec()
                == sum_counts(pairs@),
    {
        let mut c = NodCounters::new();
        let mut i: usize = 0;
        while i < pairs.len()
            invariant
                i <= pairs@.len(),
                c.wf(),
                c@ == pairs_view(pairs@.take(i as int)),
                c.total_spec() == sum_counts(pairs@.take(i as int)),
            decreases pairs@.len() - i,
        {
            let ghost before = pairs@.take(i as int);
            let ghost after = pairs@.take(i + 1);
            proof {
                assert(after.drop_last() =~= before);
            }
            let n = pairs[i].1;
            if n > usize::MAX - c.total() {
                proof {
                    lemma_sum_le_prefix(pairs@, i + 1);
                }
                return None;
            }
            c.add(&pairs[i].0, n);
            proof {
                let k0 = pairs@[i as int].0@;
                lemma_pairs_count_nonneg(before, k0);
                assert(c@ =~= pairs_view(after)) by {
                    assert forall|k: Seq<char>| #[trigger] pairs_count(after, k) == pairs_count(
                        before,
                        k,
                    ) + if k == k0 {
                        n as int
                    } else {
                        0int
                    } by {}
                    assert forall|k: Seq<char>| c@.contains_key(k) == pairs_view(after).contains_key(
                        k,
                    ) by {
                        lemma_pairs_count_nonneg(before, k);
                    }
                }
            }
            i = i + 1;
        }
        assert(pairs@.take(i as int) =~= pairs@);
        Some(c)
    }
}

proof fn lemma_pairs_count_nonneg(ps: Seq<(String, usize)>, k: Seq<char>)
    ensures
        pairs_count(ps, k) >= 0,
    decreases ps.len(),
{
    if ps.len() > 0 {
        lemma_pairs_count_nonneg(ps.drop_last(), k);
    }
}

proof fn lemma_pairs_count_unique(s: Seq<(String, usize)>, k: Seq<char>)
    requires
        keys_unique(s),
    ensures
        has_key(s, k) ==> pairs_count(s, k) == entries_view(s)[k],
        !has_key(s, k) ==> pairs_count(s, k) == 0,
    decreases s.len(),
{
    if s.len() > 0 {
        let d = s.drop_last();
        let l = s.len() - 1;
        assert(keys_unique(d)) by {
            assert forall|a: int, b: int|
                0 <= a < d.len() && 0 <= b < d.len() && a != b implies d[a].0@ != d[b].0@ by {
                assert(d[a] == s[a] && d[b] == s[b]);
            }
        }
        lemma_pairs_count_unique(d, k);
        if s[l].0@ == k {
            lemma_view_at(s, l);
            if has_key(d, k) {
                let j = choose|j: int| 0 <= j < d.len() && d[j].0@ == k;
                assert(d[j] == s[j]);
            }
        } else {
            if has_key(s, k) {
                let j = choose|j: int| 0 <= j < s.len() && s[j].0@ == k;
                assert(d[j] == s[j]);
                lemma_view_at(s, j);
                lemma_view_at(d, j);
            }
            if has_key(d, k) {
                let j = choose|j: int| 0 <= j < d.len() && d[j].0@ == k;
                assert(d[j] == s[j]);
            }
        }
    }
}

/// Listing the counters as name and count and reading that list back gives
/// the same counters, and the list's counts fit in a `usize`.
pub proof fn lemma_pairs_round_trip(c: NodCounters)
    requires
        c.wf(),
    ensures
        pairs_view(c.pairs_spec()) == c@,
        sum_counts(c.pairs_spec()) <= usize::MAX,
{
    let s = c.entries@;
    assert forall|k: Seq<char>| #[trigger] pairs_view(s).contains_key(k) == c@.contains_key(k)
        by {
        lemma_pairs_count_unique(s, k);
        if has_key(s, k) {
            let j = choose|j: int| 0 <= j < s.len() && s[j].0@ == k;
            lemma_view_at(s, j);
        }
    }
    assert forall|k: Seq<char>| #[trigger] c@.contains_key(k) implies pairs_view(s)[k] == c@[k]
        by {
        lemma_pairs_count_unique(s, k);
    }
    assert(pairs_view(s) =~= c@);
}

proof fn lemma_sum_over_prefix(s: Seq<(String, usize)>, n: int)
    requires
        keys_unique(s),
        0 <= n <= s.len(),
    ensures
        sum_over(entries_view(s), s.map_values(|e: (String, usize)| e.0@).take(n)) == sum_counts(
            s.take(n),
        ),
    decreases n,
{
    let ks = s.map_values(|e: (String, usize)| e.0@);
    if n > 0 {
        lemma_sum_over_prefix(s, n - 1);
        assert(ks.take(n).drop_last() =~= ks.take(n - 1));
        assert(s.take(n).drop_last() =~= s.take(n - 1));
        lemma_view_at(s, n - 1);
    }
}

/// The total is the sum of the counters of all names present, each listed
/// once by `names`.
pub proof fn lemma_total_is_sum(c: NodCounters)
    requires
        c.wf(),
    ensures
        c.names().no_duplicates(),
        forall|k: Seq<char>| c@.contains_key(k) <==> c.names().contains(k),
        c.total_spec() == sum_over(c@, c.names()),
        forall|k: Seq<char>| #[trigger] c@.contains_key(k) ==> c@[k] >= 1,
{
    let s = c.entries@;
    let ks = c.names();
    lemma_sum_over_prefix(s, s.len() as int);
    assert(ks.take(s.len() as int) =~= ks);
    assert(s.take(s.len() as int) =~= s);
    assert forall|a: int, b: int| 0 <= a < ks.len() && 0 <= b < ks.len() && a != b implies ks[a]
        != ks[b] by {
        assert(ks[a] == s[a].0@ && ks[b] == s[b].0@);
    }
    assert forall|k: Seq<char>| c@.contains_key(k) <==> ks.contains(k) by {
        if c@.contains_key(k) {
            let j = choose|j: int| 0 <= j < s.len() && s[j].0@ == k;
            assert(ks[j] == k);
        }
        if ks.contains(k) {
            let j = choose|j: int| 0 <= j < ks.len() && ks[j] == k;
            assert(s[j].0@ == k);
        }
    }
    assert forall|k: Seq<char>| #[trigger] c@.contains_key(k) implies c@[k] >= 1 by {
        let j = choose|j: int| 0 <= j < s.len() && s[j].0@ == k;
        lemma_view_at(s, j);
    }
}

/// A name holds a counter exactly when its count is at least one: no
/// entry ever stores zero.
pub proof fn lemma_present_iff_counted(c: NodCounters, k: Seq<char>)
    requires
        c.wf(),
    ensures
        c@.contains_key(k) <==> c.count(k) >= 1,
{
    lemma_total_is_sum(c);
}

/// Taking one from a counter at one removes the name; taking one again
/// changes nothing.
pub proof fn lemma_decrement_at_one(m: Map<Seq<char>, nat>, k: Seq<char>)
    requires
        count_in(m, k) == 1,
    ensures
        after_decrement(m, k) == m.remove(k),
        !after_decrement(m, k).contains_key(k),
        after_decrement(after_decrement(m, k), k) == after_decrement(m, k),
{
}

proof fn lemma_sum_le_prefix(s: Seq<(String, usize)>, n: int)
    requires
        0 <= n <= s.len(),
    ensures
        sum_counts(s.take(n)) <= sum_counts(s),
    decreases s.len(),
{
    if n < s.len() {
        lemma_sum_nonneg(s.drop_last());
        assert(s.drop_last().take(n) =~= s.take(n));
        lemma_sum_le_prefix(s.drop_last(), n);
    } else {
        assert(s.take(n) =~= s);
    }
}

} // verus!
