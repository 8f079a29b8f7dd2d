use vstd::prelude::*;

verus! {

/// 2^128.
pub open spec fn two_128() -> int {
    0x1_0000_0000_0000_0000_0000_0000_0000_0000int
}

/// The largest 256-bit value.
pub open spec fn u256_max() -> int {
    two_128() * two_128() - 1
}

/// An unsigned 256-bit integer, as stakes and thresholds are: `hi * 2^128 + lo`.
#[derive(Debug, Clone, Copy, PartialEq, Eq, Structural)]
pub struct U256 {
    pub hi: u128,
    pub lo: u128,
}

impl U256 {
    /// The number this value stands for.
    pub open spec fn value(self) -> nat {
        (self.hi * two_128() + self.lo) as nat
    }

    /// Zero.
    pub fn zero() -> (r: Self)
        ensures
            r.value() == 0,
    {
        U256 { hi: 0, lo: 0 }
    }

    /// A value below 2^128.
    pub fn from_u128(x: u128) -> (r: Self)
        ensures
            r.value() == x,
    {
        U256 { hi: 0, lo: x }
    }

    /// The sum, which must stay within 256 bits.
    pub fn add(self, other: Self) -> (r: Self)
        requires
            self.value() + other.value() <= u256_max(),
        ensures
            r.value() == self.value() + other.value(),
    {
        proof {
            assert(self.hi * two_128() + other.hi * two_128() == (self.hi + other.hi) * two_128())
                by (nonlinear_arith);
            assert((self.hi + other.hi) * two_128() <= u256_max()) by (nonlinear_arith)
                requires
                    (self.hi + other.hi) * two_128() <= self.hi * two_128() + self.lo + other.hi
                        * two_128() + other.lo,
                    self.hi * two_128() + self.lo + other.hi * two_128() + other.lo <= u256_max(),
            ;
            assert(self.hi + other.hi < two_128()) by (nonlinear_arith)
                requires
                    (self.hi + other.hi) * two_128() <= u256_max(),
                    u256_max() == two_128() * two_128() - 1,
                    two_128() > 0,
            ;
        }
        if self.lo <= u128::MAX - other.lo {
            U256 { hi: self.hi + other.hi, lo: self.lo + other.lo }
        } else {
            proof {
                assert((self.hi + other.hi + 1) * two_128() <= u256_max()) by (nonlinear_arith)
                    requires
                        self.lo + other.lo >= two_128(),
                        self.hi * two_128() + self.lo + other.hi * two_128() + other.lo
                            <= u256_max(),
                        self.lo < two_128(),
                        other.lo < two_128(),
                ;
                assert(self.hi + other.hi + 1 < two_128()) by (nonlinear_arith)
                    requires
                        (self.hi + other.hi + 1) * two_128() <= u256_max(),
                        u256_max() == two_128() * two_128() - 1,
                        two_128() > 0,
                ;
                assert((self.hi + other.hi + 1) * two_128() == self.hi * two_128() + other.hi
                    * two_128() + two_128()) by (nonlinear_arith);
            }
            U256 { hi: self.hi + other.hi + 1, lo: self.lo - (u128::MAX - other.lo) - 1 }
        }
    }

    /// Whether this value is below `other`.
    pub fn lt(&self, other: &Self) -> (r: bool)
        ensures
            r == (self.value() < other.value()),
    {
        proof {
            lemma_value_order(*self, *other);
        }
        self.hi < other.hi || (self.hi == other.hi && self.lo < other.lo)
    }
}

proof fn lemma_value_order(a: U256, b: U256)
    ensures
        a.value() < b.value() <==> (a.hi < b.hi || (a.hi == b.hi && a.lo < b.lo)),
{
    if a.hi < b.hi {
        assert(a.hi * two_128() + two_128() <= b.hi * two_128()) by (nonlinear_arith)
            requires
                a.hi < b.hi,
                two_128() > 0,
        ;
    } else if a.hi > b.hi {
        assert(b.hi * two_128() + two_128() <= a.hi * two_128()) by (nonlinear_arith)
            requires
                b.hi < a.hi,
                two_128() > 0,
        ;
    }
}

/// Total stake of the entries whose bit is set.
pub open spec fn selected_weight(stakes: Seq<U256>, bits: Seq<bool>) -> nat
    decreases stakes.len(),
{
    if stakes.len() == 0 || bits.len() == 0 {
        0
    } else {
        selected_weight(stakes.drop_last(), bits.drop_last()) + if bits.last() {
            stakes.last().value()
        } else {
            0
        }
    }
}

/// Total stake of all entries.
pub open spec fn total_weight(stakes: Seq<U256>) -> nat
    decreases stakes.len(),
{
    if stakes.len() == 0 {
        0
    } else {
        total_weight(stakes.drop_last()) + stakes.last().value()
    }
}

/// The signers' stake never exceeds the total stake.
pub proof fn lemma_selected_le_total(stakes: Seq<U256>, bits: Seq<bool>)
    ensures
        selected_weight(stakes, bits) <= total_weight(stakes),
    decreases stakes.len(),
{
    if stakes.len() > 0 && bits.len() > 0 {
        lemma_selected_le_total(stakes.drop_last(), bits.drop_last());
    }
}

proof fn lemma_selected_prefix(stakes: Seq<U256>, bits: Seq<bool>, i: int)
    requires
        stakes.len() == bits.len(),
        0 <= i < stakes.len(),
    ensures
        selected_weight(stakes.subrange(0, i + 1), bits.subrange(0, i + 1)) == selected_weight(
            stakes.subrange(0, i),
            bits.subrange(0, i),
        ) + if bits[i] { stakes[i].value() } else { 0 },
{
    assert(stakes.subrange(0, i + 1).drop_last() =~= stakes.subrange(0, i));
    assert(bits.subrange(0, i + 1).drop_last() =~= bits.subrange(0, i));
}

proof fn lemma_total_prefix_le(stakes: Seq<U256>, n: int)
    requires
        0 <= n <= stakes.len(),
    ensures
        total_weight(stakes.subrange(0, n)) <= total_weight(stakes),
    decreases stakes.len(),
{
    if n < stakes.len() {
        assert(stakes.drop_last().subrange(0, n) =~= stakes.subrange(0, n));
        lemma_total_prefix_le(stakes.drop_last(), n);
    } else {
        assert(stakes.subrange(0, n) =~= stakes);
    }
}

/// Collect the signers of a state: entry `i` signs when it sent a valid signature
/// (`valid[i]`). Returns the signer bits and their accumulated stake.
pub fn tally_signers(stakes: &Vec<U256>, valid: &Vec<bool>) -> (r: (Vec<bool>, U256))
    requires
        stakes@.len() == valid@.len(),
        total_weight(stakes@) <= u256_max(),
    ensures
        r.0@ == valid@,
        r.1.value() == selected_weight(stakes@, valid@),
{
    let mut bits: Vec<bool> = Vec::new();
    let mut acc: U256 = U256::zero();
    let mut i: usize = 0;
    while i < stakes.len()
        invariant
            stakes@.len() == valid@.len(),
            total_weight(stakes@) <= u256_max(),
            i <= stakes@.len(),
            bits@ == valid@.subrange(0, i as int),
            acc.value() == selected_weight(stakes@.subrange(0, i as int), valid@.subrange(0, i as int)),
        decreases stakes@.len() - i,
    {
        proof {
            lemma_selected_prefix(stakes@, valid@, i as int);
            lemma_selected_le_total(stakes@.subrange(0, i + 1), valid@.subrange(0, i + 1));
            lemma_total_prefix_le(stakes@, i + 1);
        }
        if valid[i] {
            acc = acc.add(stakes[i]);
        }
        bits.push(valid[i]);
        proof {
            assert(valid@.subrange(0, i + 1) =~= valid@.subrange(0, i as int).push(valid@[i as int]));
        }
        i = i + 1;
    }
    proof {
        assert(stakes@.subrange(0, stakes@.len() as int) =~= stakes@);
        assert(valid@.subrange(0, valid@.len() as int) =~= valid@);
    }
    (bits, acc)
}

/// When every entry signs, the signers' stake is the total stake.
pub proof fn lemma_all_signed(stakes: Seq<U256>, bits: Seq<bool>)
    requires
        stakes.len() == bits.len(),
        forall|i: int| 0 <= i < bits.len() ==> #[trigger] bits[i],
    ensures
        selected_weight(stakes, bits) == total_weight(stakes),
    decreases stakes.len(),
{
    if stakes.len() > 0 {
        assert(bits[bits.len() - 1]);
        let b = bits.drop_last();
        assert forall|i: int| 0 <= i < b.len() implies #[trigger] b[i] by {
            assert(b[i] == bits[i]);
        }
        lemma_all_signed(stakes.drop_last(), b);
    }
}

/// The signers' stake does not reach the threshold.
#[derive(Debug, Clone, Copy, PartialEq, Eq, Structural)]
pub struct InsufficientWeight {
    pub accumulated: U256,
    pub threshold: U256,
}

/// A state may be proven only when its signers' stake reaches the threshold.
pub fn check_threshold(accumulated: U256, threshold: U256) -> (r: Result<(), InsufficientWeight>)
    ensures
        accumulated.value() >= threshold.value() <==> r is Ok,
        accumulated.value() < threshold.value() ==> r == Err::<(), InsufficientWeight>(
            InsufficientWeight { accumulated, threshold },
        ),
{
    if accumulated.lt(&threshold) {
        Err(InsufficientWeight { accumulated, threshold })
    } else {
        Ok(())
    }
}

/// Adding a signer that had not signed adds exactly its stake to the signers' stake.
pub proof fn lemma_selected_update(stakes: Seq<U256>, bits: Seq<bool>, idx: int)
    requires
        stakes.len() == bits.len(),
        0 <= idx < bits.len(),
        !bits[idx],
    ensures
        selected_weight(stakes, bits.update(idx, true)) == selected_weight(stakes, bits)
            + stakes[idx].value(),
    decreases stakes.len(),
{
    let b2 = bits.update(idx, true);
    if idx == bits.len() - 1 {
        assert(b2.drop_last() =~= bits.drop_last());
    } else {
        assert(b2.drop_last() =~= bits.drop_last().update(idx, true));
        lemma_selected_update(stakes.drop_last(), bits.drop_last(), idx);
    }
}

/// One draw of the random quorum selection: the drawn entry joins the quorum unless it
/// already has. The accumulated weight stays the stake of the selected entries.
pub fn select_signer(bits: &mut Vec<bool>, accumulated: &mut U256, stakes: &Vec<U256>, idx: usize)
    requires
        old(bits)@.len() == stakes@.len(),
        idx < stakes@.len(),
        old(accumulated).value() == selected_weight(stakes@, old(bits)@),
        total_weight(stakes@) <= u256_max(),
    ensures
        final(bits)@ == old(bits)@.update(idx as int, true),
        final(accumulated).value() == selected_weight(stakes@, final(bits)@),
        old(bits)@[idx as int] ==> *final(accumulated) == *old(accumulated),
        !old(bits)@[idx as int] ==> final(accumulated).value() == old(accumulated).value()
            + stakes@[idx as int].value(),
{
    if bits[idx] {
        proof {
            assert(old(bits)@.update(idx as int, true) =~= old(bits)@);
        }
        return;
    }
    proof {
        lemma_selected_update(stakes@, bits@, idx as int);
        lemma_selected_le_total(stakes@, bits@.update(idx as int, true));
    }
    bits.set(idx, true);
    *accumulated = accumulated.add(stakes[idx]);
}


/// The entries picked by a run of draws: entry `i` of `n` is picked when some draw is `i`.
pub open spec fn drawn(draws: Seq<usize>, n: nat) -> Seq<bool> {
    Seq::new(n, |i: int| exists|j: int| 0 <= j < draws.len() && #[trigger] draws[j] == i)
}

/// Pick a quorum by random draws (`draws`, each an entry's position, in the order they
/// were drawn): each draw adds its entry unless it was already picked, and the draws
/// stop as soon as the picked entries' stake reaches the threshold. Returns the picked
/// entries, their stake, and how many draws were used; every earlier prefix of those
/// draws fell short of the threshold, and when the stake never reaches it every draw
/// was used.
pub fn select_quorum(stakes: &Vec<U256>, threshold: U256, draws: &Vec<usize>) -> (r: (
    Vec<bool>,
    U256,
    usize,
))
    requires
        total_weight(stakes@) <= u256_max(),
        forall|j: int| 0 <= j < draws@.len() ==> #[trigger] draws@[j] < stakes@.len(),
    ensures
        r.2 <= draws@.len(),
        r.0@ == drawn(draws@.take(r.2 as int), stakes@.len()),
        r.1.value() == selected_weight(stakes@, r.0@),
        r.1.value() < threshold.value() ==> r.2 == draws@.len(),
        forall|m: int|
            0 <= m < r.2 ==> selected_weight(stakes@, #[trigger] drawn(draws@.take(m), stakes@.len()))
                < threshold.value(),
{
    let n = stakes.len();
    let mut bits: Vec<bool> = Vec::new();
    let mut k: usize = 0;
    while k < n
        invariant
            n == stakes@.len(),
            k <= n,
            bits@.len() == k,
            forall|a: int| 0 <= a < k ==> !#[trigger] bits@[a],
        decreases n - k,
    {
        bits.push(false);
        k = k + 1;
    }
    let mut acc = U256::zero();
    proof {
        assert(bits@ =~= drawn(draws@.take(0), n as nat));
        lemma_none_selected(stakes@, bits@);
    }
    let mut i: usize = 0;
    while i < draws.len() && acc.lt(&threshold)
        invariant
            n == stakes@.len(),
            total_weight(stakes@) <= u256_max(),
            forall|j: int| 0 <= j < draws@.len() ==> #[trigger] draws@[j] < stakes@.len(),
            i <= draws@.len(),
            bits@ == drawn(draws@.take(i as int), n as nat),
            acc.value() == selected_weight(stakes@, bits@),
            forall|m: int|
                0 <= m < i ==> selected_weight(stakes@, #[trigger] drawn(draws@.take(m), n as nat))
                    < threshold.value(),
        decreases draws@.len() - i,
    {
        let idx = draws[i];
        proof {
            let next = drawn(draws@.take(i + 1), n as nat);
            assert forall|a: int| 0 <= a < n implies next[a] == bits@.update(idx as int, true)[a] by {
                if a == idx {
                    assert(draws@.take(i + 1)[i as int] == idx);
                } else {
                    if next[a] {
                        let j = choose|j: int| 0 <= j < i + 1 && #[trigger] draws@.take(i + 1)[j] == a;
                        assert(draws@.take(i as int)[j] == a);
                    }
                    if bits@[a] {
                        let j = choose|j: int| 0 <= j < i && #[trigger] draws@.take(i as int)[j] == a;
                        assert(draws@.take(i + 1)[j] == a);
                    }
                }
            }
            assert(next =~= bits@.update(idx as int, true));
        }
        select_signer(&mut bits, &mut acc, stakes, idx);
        i = i + 1;
    }
    (bits, acc, i)
}

/// With no entry selected, the selected stake is zero.
proof fn lemma_none_selected(stakes: Seq<U256>, bits: Seq<bool>)
    requires
        forall|a: int| 0 <= a < bits.len() ==> !#[trigger] bits[a],
    ensures
        selected_weight(stakes, bits) == 0,
    decreases stakes.len(),
{
    if stakes.len() > 0 && bits.len() > 0 {
        let b = bits.drop_last();
        assert(!bits[bits.len() - 1]);
        assert forall|a: int| 0 <= a < b.len() implies !#[trigger] b[a] by {
            assert(b[a] == bits[a]);
        }
        lemma_none_selected(stakes.drop_last(), b);
    }
}

} // verus!
