use vstd::prelude::*;

verus! {

/// The most a single count can reach; further increments leave it there.
pub const COUNT_MAX: u32 = 4294967295;

/// The mapping that a sequence of (key, count) entries denotes: a later
/// entry for a key overrides an earlier one.
pub open spec fn counts_of(s: Seq<(Seq<char>, u32)>) -> Map<Seq<char>, nat>
    decreases s.len(),
{
    if s.len() == 0 {
        Map::empty()
    } else {
        counts_of(s.drop_last()).insert(s.last().0, s.last().1 as nat)
    }
}

/// Entries with pairwise distinct keys and every count at least one.
pub open spec fn entries_wf(s: Seq<(Seq<char>, u32)>) -> bool {
    &&& forall|i: int, j: int| 0 <= i < j < s.len() ==> s[i].0 != s[j].0
    &&& forall|i: int| 0 <= i < s.len() ==> s[i].1 >= 1
}

/// One more than `c`, held at `COUNT_MAX`.
pub open spec fn count_succ(c: nat) -> nat {
    if c < COUNT_MAX {
        c + 1
    } else {
        c
    }
}

/// The mapping after one increment of `k`: a new key starts at one, a known
/// key goes up by one.
pub open spec fn bumped(m: Map<Seq<char>, nat>, k: Seq<char>) -> Map<Seq<char>, nat> {
    if m.contains_key(k) {
        m.insert(k, count_succ(m[k]))
    } else {
        m.insert(k, 1)
    }
}

/// The mapping after incrementing each key of `ks`, in order.
pub open spec fn bumped_all(m: Map<Seq<char>, nat>, ks: Seq<Seq<char>>) -> Map<Seq<char>, nat>
    decreases ks.len(),
{
    if ks.len() == 0 {
        m
    } else {
        bumped(bumped_all(m, ks.drop_last()), ks.last())
    }
}

/// A frequency table: each key that was ever incremented, with its count.
pub struct CountTable {
    entries: Vec<(String, u32)>,
}

impl View for CountTable {
    type V = Seq<(Seq<char>, u32)>;

    /// The entries in their stored order.
    closed spec fn view(&self) -> Seq<(Seq<char>, u32)> {
        self.entries@.map_values(|e: (String, u32)| (e.0@, e.1))
    }
}

impl CountTable {
    /// The mapping from key to count.
    pub open spec fn counts(&self) -> Map<Seq<char>, nat> {
        counts_of(self@)
    }

    pub open spec fn wf(&self) -> bool {
        entries_wf(self@)
    }

    /// An empty table.
    pub fn new() -> (r: CountTable)
        ensures
            r.wf(),
            r@ == Seq::<(Seq<char>, u32)>::empty(),
            r.counts() == Map::<Seq<char>, nat>::empty(),
    {
        let r = CountTable { entries: Vec::new() };
        assert(r@ =~= Seq::<(Seq<char>, u32)>::empty());
        r
    }

    /// The number of distinct keys.
    pub fn len(&self) -> (r: usize)
        ensures
            r == self@.len(),
    {
        self.entries.len()
    }

    /// The key and count of the entry at `i`, in stored order.
    pub fn entry(&self, i: usize) -> (r: (&String, u32))
        requires
            i < self@.len(),
        ensures
            r.0@ == self@[i as int].0,
            r.1 == self@[i as int].1,
    {
        (&self.entries[i].0, self.entries[i].1)
    }

    /// The count of `key`, if it is present.
    pub fn get(&self, key: &String) -> (r: Option<u32>)
        requires
            self.wf(),
        ensures
            r is Some <==> self.counts().contains_key(key@),
            r is Some ==> r->0 as nat == self.counts()[key@],
    {
        let mut i: usize = 0;
        while i < self.entries.len()
            invariant
                i <= self@.len(),
                self.wf(),
                forall|j: int| 0 <= j < i ==> self@[j].0 != key@,
            decreases self@.len() - i,
        {
            if self.entries[i].0 == *key {
                proof {
                    assert(self@[i as int] == (self.entries@[i as int].0@, self.entries@[i as int].1));
                    lemma_counts_index(self@);
                }
                return Some(self.entries[i].1);
            }
            i = i + 1;
        }
        proof {
            lemma_counts_index(self@);
        }
        None
    }

    /// Increments `key`: a new key is added with count one at the end, a
    /// present key goes up by one in place (held at `COUNT_MAX`).
    pub fn increment(&mut self, key: String)
        requires
            old(self).wf(),
        ensures
            final(self).wf(),
            final(self).counts() == bumped(old(self).counts(), key@),
            !old(self).counts().contains_key(key@) ==> final(self)@ == old(self)@.push((key@, 1u32)),
            old(self).counts().contains_key(key@) ==> final(self)@.len() == old(self)@.len()
                && forall|i: int| 0 <= i < old(self)@.len() ==> #[trigger] final(self)@[i].0 == old(self)@[i].0,
    {
        let ghost before = self@;
        let n = self.entries.len();
        let mut i: usize = 0;
        while i < n
            invariant
                self@ == before,
                before == old(self)@,
                n == self@.len(),
                i <= n,
                self.wf(),
                forall|j: int| 0 <= j < i ==> self@[j].0 != key@,
            decreases n - i,
        {
            if self.entries[i].0 == key {
                let c = self.entries[i].1;
                assert(before[i as int] == (key@, c));
                let next = if c < COUNT_MAX {
                    c + 1
                } else {
                    c
                };
                self.entries.set(i, (key, next));
                proof {
                    assert(self@ =~= before.update(i as int, (before[i as int].0, next)));
                    lemma_counts_index(before);
                    lemma_counts_update(before, i as int, next);
                }
                return;
            }
            i = i + 1;
        }
        self.entries.push((key, 1));
        proof {
            lemma_counts_index(before);
            assert(self@ =~= before.push((key@, 1u32)));
            assert(self@.drop_last() =~= before);
            if counts_of(before).contains_key(key@) {
                let j = choose|j: int| 0 <= j < before.len() && before[j].0 == key@;
                assert(before[j].0 != key@);
            }
        }
    }

    /// A copy of the table, entry for entry.
    pub fn copy(&self) -> (r: CountTable)
        ensures
            r@ == self@,
    {
        let mut entries: Vec<(String, u32)> = Vec::new();
        let mut i: usize = 0;
        while i < self.entries.len()
            invariant
                i <= self@.len(),
                entries@.len() == i,
                forall|j: int|
                    0 <= j < i ==> (#[trigger] entries@[j]).0@ == self@[j].0 && entries@[j].1
                        == self@[j].1,
            decreases self@.len() - i,
        {
            let k = self.entries[i].0.clone();
            entries.push((k, self.entries[i].1));
            i = i + 1;
        }
        let r = CountTable { entries };
        assert(r@ =~= self@);
        r
    }
}

/// The count of `k` in `m`, zero where `k` is absent.
pub open spec fn count_in(m: Map<Seq<char>, nat>, k: Seq<char>) -> nat {
    if m.contains_key(k) {
        m[k]
    } else {
        0
    }
}

/// How many times `k` occurs in `ks`.
pub open spec fn occurrences(ks: Seq<Seq<char>>, k: Seq<char>) -> nat
    decreases ks.len(),
{
    if ks.len() == 0 {
        0
    } else {
        occurrences(ks.drop_last(), k) + if ks.last() == k {
            1nat
        } else {
            0nat
        }
    }
}

/// No increment is lost: after any interleaving `ks` of increments on
/// various keys, the count of `k` has grown by exactly the number of
/// increments of `k` in it, as long as that stays within `COUNT_MAX`.
pub proof fn lemma_no_lost_increments(m: Map<Seq<char>, nat>, ks: Seq<Seq<char>>, k: Seq<char>)
    requires
        count_in(m, k) + occurrences(ks, k) <= COUNT_MAX,
    ensures
        count_in(bumped_all(m, ks), k) == count_in(m, k) + occurrences(ks, k),
    decreases ks.len(),
{
    if ks.len() > 0 {
        lemma_no_lost_increments(m, ks.drop_last(), k);
    }
}

/// A key that was never seen is created with count one by its first
/// increment, and has count two after its second.
pub proof fn lemma_first_and_second_increment(m: Map<Seq<char>, nat>, k: Seq<char>)
    requires
        !m.contains_key(k),
    ensures
        bumped(m, k)[k] == 1,
        bumped(bumped(m, k), k)[k] == 2,
{
}

/// An increment never lowers a count and never drops a key; it changes no
/// key but its own.
pub proof fn lemma_increment_monotone(m: Map<Seq<char>, nat>, k: Seq<char>)
    ensures
        forall|j: Seq<char>|
            #[trigger] m.contains_key(j) ==> bumped(m, k).contains_key(j) && bumped(m, k)[j] >= m[j],
        forall|j: Seq<char>| j != k ==> #[trigger] bumped(m, k).contains_key(j) == m.contains_key(j),
        forall|j: Seq<char>| j != k && m.contains_key(j) ==> #[trigger] bumped(m, k)[j] == m[j],
        bumped(m, k).contains_key(k),
{
}

/// Every entry's key is in the mapping; with distinct keys it maps to that
/// entry's count; and every key of the mapping comes from some entry.
pub proof fn lemma_counts_index(s: Seq<(Seq<char>, u32)>)
    ensures
        forall|i: int| 0 <= i < s.len() ==> counts_of(s).contains_key(#[trigger] s[i].0),
        entries_wf(s) ==> forall|i: int| 0 <= i < s.len() ==> counts_of(s)[#[trigger] s[i].0] == s[i].1 as nat,
        forall|k: Seq<char>| #[trigger]
            counts_of(s).contains_key(k) ==> exists|i: int| 0 <= i < s.len() && s[i].0 == k,
    decreases s.len(),
{
    if s.len() > 0 {
        let p = s.drop_last();
        lemma_counts_index(p);
        assert forall|i: int| 0 <= i < s.len() implies counts_of(s).contains_key(#[trigger] s[i].0) by {
            if i < s.len() - 1 {
                assert(s[i] == p[i]);
            }
        }
        if entries_wf(s) {
            assert(entries_wf(p));
            assert forall|i: int| 0 <= i < s.len() implies counts_of(s)[#[trigger] s[i].0] == s[i].1 as nat by {
                if i < s.len() - 1 {
                    assert(s[i] == p[i]);
                    assert(s[i].0 != s[s.len() - 1].0);
                }
            }
        }
        assert forall|k: Seq<char>| #[trigger]
            counts_of(s).contains_key(k) implies exists|i: int| 0 <= i < s.len() && s[i].0 == k by {
            if k != s.last().0 {
                assert(counts_of(p).contains_key(k));
                let j = choose|j: int| 0 <= j < p.len() && p[j].0 == k;
                assert(s[j] == p[j]);
            }
        }
    }
}

/// Changing the count of one entry of a table with distinct keys changes the
/// mapping at that key alone.
pub proof fn lemma_counts_update(s: Seq<(Seq<char>, u32)>, i: int, v: u32)
    requires
        entries_wf(s),
        0 <= i < s.len(),
    ensures
        counts_of(s.update(i, (s[i].0, v))) == counts_of(s).insert(s[i].0, v as nat),
    decreases s.len(),
{
    let t = s.update(i, (s[i].0, v));
    let p = s.drop_last();
    if i == s.len() - 1 {
        assert(t.drop_last() =~= p);
        lemma_counts_index(p);
        assert(counts_of(t) =~= counts_of(s).insert(s[i].0, v as nat));
    } else {
        assert(entries_wf(p));
        lemma_counts_update(p, i, v);
        assert(t.drop_last() =~= p.update(i, (p[i].0, v)));
        assert(s[i].0 != s.last().0);
        assert(counts_of(t) =~= counts_of(s).insert(s[i].0, v as nat));
    }
}

} // verus!
