use vstd::prelude::*;
use crate::generator::{draw, label, DRAW_MAX, DRAW_MIN};
use crate::table::{bumped, counts_of, entries_wf, CountTable};

verus! {

/// The registry: the one frequency table that manual increments and
/// generators update. Callers that share it across tasks hold it behind a
/// single exclusive lock, so each operation below runs whole or not at all.
pub struct CounterRegistry {
    table: CountTable,
}

impl View for CounterRegistry {
    type V = Seq<(Seq<char>, u32)>;

    /// The table's entries in their stored order.
    closed spec fn view(&self) -> Seq<(Seq<char>, u32)> {
        self.table@
    }
}

impl CounterRegistry {
    /// The mapping from key to count.
    pub open spec fn counts(&self) -> Map<Seq<char>, nat> {
        counts_of(self@)
    }

    pub open spec fn wf(&self) -> bool {
        entries_wf(self@)
    }

    /// An empty registry.
    pub fn new() -> (r: CounterRegistry)
        ensures
            r.wf(),
            r@ == Seq::<(Seq<char>, u32)>::empty(),
            r.counts() == Map::<Seq<char>, nat>::empty(),
    {
        CounterRegistry { table: CountTable::new() }
    }

    /// Increments `key` and returns a copy of the whole table as it stands
    /// right after this update.
    pub fn increment(&mut self, key: String) -> (r: CountTable)
        requires
            old(self).wf(),
        ensures
            final(self).wf(),
            final(self).counts() == bumped(old(self).counts(), key@),
            !old(self).counts().contains_key(key@) ==> final(self)@ == old(self)@.push((key@, 1u32)),
            old(self).counts().contains_key(key@) ==> final(self)@.len() == old(self)@.len()
                && forall|i: int| 0 <= i < old(self)@.len() ==> #[trigger] final(self)@[i].0 == old(self)@[i].0,
            r@ == final(self)@,
    {
        self.table.increment(key);
        self.table.copy()
    }

    /// A copy of the whole table.
    pub fn snapshot(&self) -> (r: CountTable)
        ensures
            r@ == self@,
    {
        self.table.copy()
    }

    /// One generator tick: draws a number and increments its key. Returns
    /// the number drawn.
    pub fn generator_tick(&mut self) -> (n: u32)
        requires
            old(self).wf(),
        ensures
            DRAW_MIN <= n <= DRAW_MAX,
            final(self).wf(),
            final(self).counts() == bumped(old(self).counts(), label(n as nat)),
    {
        let n = draw();
        self.table.record_draw(n);
        n
    }
}

} // verus!
