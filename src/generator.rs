use vstd::prelude::*;
use vstd::string::StringExecFns;
use crate::decimal::{decimal, decimal_string, digit_char};
use crate::table::{bumped, count_in, CountTable, COUNT_MAX};

verus! {

/// The smallest number a generator draws.
pub const DRAW_MIN: u32 = 1;

/// The largest number a generator draws.
pub const DRAW_MAX: u32 = 10;

/// The text that precedes the drawn number in a generated key.
pub open spec fn label_prefix() -> Seq<char> {
    seq!['N', 'u', 'm', 'b', 'e', 'r', ' ']
}

/// The key that a generator increments when it draws `n`.
pub open spec fn label(n: nat) -> Seq<char> {
    label_prefix() + decimal(n)
}

/// Relies on `rand::thread_rng` and `Rng::gen_range`: a number of the closed
/// range, which must not be empty.
#[verifier::external_body]
fn random_in(lo: u32, hi: u32) -> (r: u32)
    requires
        lo <= hi,
    ensures
        lo <= r <= hi,
{
    rand::Rng::gen_range(&mut rand::thread_rng(), lo..=hi)
}

/// A uniformly drawn number from `DRAW_MIN` to `DRAW_MAX`.
pub fn draw() -> (r: u32)
    ensures
        DRAW_MIN <= r <= DRAW_MAX,
{
    random_in(DRAW_MIN, DRAW_MAX)
}

/// The key for the drawn number `n`.
pub fn label_key(n: u32) -> (r: String)
    ensures
        r@ == label(n as nat),
{
    proof {
        reveal_strlit("Number ");
    }
    let mut s = String::from_str("Number ");
    assert(s@ =~= label_prefix());
    let digits = decimal_string(n);
    s.append(digits.as_str());
    s
}

/// The sum of the counts of the keys for the draws `1` to `hi`.
pub open spec fn label_total(m: Map<Seq<char>, nat>, hi: nat) -> nat
    decreases hi,
{
    if hi == 0 {
        0
    } else {
        label_total(m, (hi - 1) as nat) + count_in(m, label(hi))
    }
}

/// Distinct draws give distinct keys.
pub proof fn lemma_labels_distinct(i: nat, j: nat)
    requires
        DRAW_MIN <= i <= DRAW_MAX,
        DRAW_MIN <= j <= DRAW_MAX,
        i != j,
    ensures
        label(i) != label(j),
{
    assert(decimal(10) == decimal(1).push(digit_char(0)));
    assert(decimal(10).len() == 2);
    if i < 10 && j < 10 {
        assert(i == 1 || i == 2 || i == 3 || i == 4 || i == 5 || i == 6 || i == 7 || i == 8 || i == 9);
        assert(j == 1 || j == 2 || j == 3 || j == 4 || j == 5 || j == 6 || j == 7 || j == 8 || j == 9);
        assert(label(i)[7] == digit_char(i));
        assert(label(j)[7] == digit_char(j));
    } else {
        assert(label(i).len() != label(j).len());
    }
}

/// A generator tick that drew `d` adds exactly one to the total of the
/// generated keys (unless that key's count is already at `COUNT_MAX`).
pub proof fn lemma_tick_adds_one(m: Map<Seq<char>, nat>, d: nat)
    requires
        DRAW_MIN <= d <= DRAW_MAX,
        count_in(m, label(d)) < COUNT_MAX,
    ensures
        label_total(bumped(m, label(d)), DRAW_MAX as nat) == label_total(m, DRAW_MAX as nat) + 1,
{
    lemma_tick_adds_one_upto(m, d, DRAW_MAX as nat);
}

proof fn lemma_tick_adds_one_upto(m: Map<Seq<char>, nat>, d: nat, hi: nat)
    requires
        DRAW_MIN <= d <= DRAW_MAX,
        hi <= DRAW_MAX,
        count_in(m, label(d)) < COUNT_MAX,
    ensures
        label_total(bumped(m, label(d)), hi) == label_total(m, hi) + if d <= hi {
            1nat
        } else {
            0nat
        },
    decreases hi,
{
    if hi > 0 {
        lemma_tick_adds_one_upto(m, d, (hi - 1) as nat);
        if hi != d {
            lemma_labels_distinct(hi, d);
        }
    }
}

impl CountTable {
    /// One generator tick that drew `n`: the key for `n` goes up by one.
    pub fn record_draw(&mut self, n: u32)
        requires
            old(self).wf(),
        ensures
            final(self).wf(),
            final(self).counts() == bumped(old(self).counts(), label(n as nat)),
    {
        let key = label_key(n);
        self.increment(key);
    }
}

} // verus!
