use vstd::arithmetic::power::pow;
use vstd::prelude::*;

use crate::natural::Natural;

verus! {

/// Product of `factor ^ multiplicity` over a sequence of (factor, multiplicity) pairs.
pub open spec fn entries_product(s: Seq<(nat, nat)>) -> int
    decreases s.len(),
{
    if s.len() == 0 {
        1
    } else {
        entries_product(s.drop_last()) * pow(s.last().0 as int, s.last().1)
    }
}

/// Total multiplicity that a sequence of (factor, multiplicity) pairs gives to `k`.
pub open spec fn entries_multiplicity(s: Seq<(nat, nat)>, k: nat) -> nat
    decreases s.len(),
{
    if s.len() == 0 {
        0
    } else {
        entries_multiplicity(s.drop_last(), k) + if s.last().0 == k {
            s.last().1
        } else {
            0nat
        }
    }
}

/// Product of a sequence of numbers.
pub open spec fn values_product(s: Seq<nat>) -> int
    decreases s.len(),
{
    if s.len() == 0 {
        1
    } else {
        values_product(s.drop_last()) * s.last()
    }
}

proof fn lemma_entries_push(s: Seq<(nat, nat)>, e: (nat, nat), k: nat)
    ensures
        entries_product(s.push(e)) == entries_product(s) * pow(e.0 as int, e.1),
        entries_multiplicity(s.push(e), k) == entries_multiplicity(s, k) + if e.0 == k {
            e.1
        } else {
            0nat
        },
{
    assert(s.push(e).drop_last() =~= s);
}

proof fn lemma_entries_bump(s: Seq<(nat, nat)>, i: int, k: nat)
    requires
        0 <= i < s.len(),
    ensures
        entries_product(s.update(i, (s[i].0, s[i].1 + 1))) == entries_product(s) * s[i].0,
        entries_multiplicity(s.update(i, (s[i].0, s[i].1 + 1)), k) == entries_multiplicity(s, k)
            + if s[i].0 == k {
            1nat
        } else {
            0nat
        },
    decreases s.len(),
{
    let u = s.update(i, (s[i].0, s[i].1 + 1));
    if i == s.len() - 1 {
        assert(u.drop_last() =~= s.drop_last());
        let b = s[i].0 as int;
        let m = s[i].1;
        reveal(pow);
        assert(pow(b, (m + 1) as nat) == b * pow(b, m));
        let p = entries_product(s.drop_last());
        assert(p * (b * pow(b, m)) == p * pow(b, m) * b) by (nonlinear_arith);
    } else {
        lemma_entries_bump(s.drop_last(), i, k);
        assert(u.drop_last() =~= s.drop_last().update(i, (s[i].0, s[i].1 + 1)));
        let p = entries_product(s.drop_last());
        let q = pow(s.last().0 as int, s.last().1);
        let b = s[i].0 as int;
        assert(p * b * q == p * q * b) by (nonlinear_arith);
    }
}

proof fn lemma_values_push(s: Seq<nat>, v: nat)
    ensures
        values_product(s.push(v)) == values_product(s) * v,
{
    assert(s.push(v).drop_last() =~= s);
}

/// A prime-to-multiplicity mapping under construction, with an optional sign entry `-1 -> 1`.
pub struct FactorMap {
    negative: bool,
    factors: Vec<Natural>,
    multiplicities: Vec<u64>,
    total: u64,
}

impl FactorMap {
    /// The (factor, multiplicity) pairs, without the sign entry.
    pub closed spec fn entry_seq(&self) -> Seq<(nat, nat)> {
        Seq::new(
            self.factors@.len(),
            |i: int| (self.factors@[i]@, self.multiplicities@[i] as nat),
        )
    }

    /// Whether the mapping holds the sign entry `-1 -> 1`.
    pub closed spec fn has_sign(&self) -> bool {
        self.negative
    }

    /// Sum of all multiplicities; it bounds each of them.
    pub closed spec fn total_count(&self) -> nat {
        self.total as nat
    }

    pub closed spec fn wf(&self) -> bool {
        &&& self.factors@.len() == self.multiplicities@.len()
        &&& forall|i: int| 0 <= i < self.factors@.len() ==> self.factors@[i].wf()
        &&& forall|i: int| 0 <= i < self.factors@.len() ==> #[trigger] self.factors@[i]@ >= 2
        &&& forall|i: int|
            0 <= i < self.multiplicities@.len() ==> 1 <= #[trigger] self.multiplicities@[i]
                <= self.total
        &&& forall|i: int, j: int|
            0 <= i < j < self.factors@.len() ==> self.factors@[i]@ != self.factors@[j]@
    }

    /// The multiplicity the mapping gives to `k` (0 where `k` is absent).
    pub open spec fn multiplicity(&self, k: int) -> nat {
        if k == -1 {
            if self.has_sign() {
                1
            } else {
                0
            }
        } else if k >= 0 {
            entries_multiplicity(self.entry_seq(), k as nat)
        } else {
            0
        }
    }

    /// The number the mapping stands for: the sign entry times every `factor ^ multiplicity`.
    pub open spec fn signed_product(&self) -> int {
        if self.has_sign() {
            -entries_product(self.entry_seq())
        } else {
            entries_product(self.entry_seq())
        }
    }

    pub fn new() -> (r: FactorMap)
        ensures
            r.wf(),
            r.entry_seq().len() == 0,
            !r.has_sign(),
            r.total_count() == 0,
    {
        FactorMap { negative: false, factors: Vec::new(), multiplicities: Vec::new(), total: 0 }
    }

    /// Sum of all multiplicities.
    pub fn total(&self) -> (r: u64)
        ensures
            r == self.total_count(),
    {
        self.total
    }

    /// Number of entries other than the sign entry.
    pub fn len(&self) -> (r: usize)
        ensures
            r == self.entry_seq().len(),
    {
        self.factors.len()
    }

    pub fn has_negative_sign(&self) -> (r: bool)
        ensures
            r == self.has_sign(),
    {
        self.negative
    }

    pub fn factor_at(&self, i: usize) -> (r: Natural)
        requires
            self.wf(),
            i < self.entry_seq().len(),
        ensures
            r@ == self.entry_seq()[i as int].0,
            r.wf(),
    {
        self.factors[i].clone()
    }

    pub fn multiplicity_at(&self, i: usize) -> (r: u64)
        requires
            i < self.entry_seq().len(),
            self.wf(),
        ensures
            r == self.entry_seq()[i as int].1,
    {
        self.multiplicities[i]
    }

    /// The multiplicity of the factor `k`, 0 where it is absent.
    pub fn multiplicity_of(&self, k: &Natural) -> (r: u64)
        requires
            self.wf(),
            k.wf(),
        ensures
            r == self.multiplicity(k@ as int),
    {
        let mut i: usize = 0;
        while i < self.factors.len()
            invariant
                self.wf(),
                k.wf(),
                i <= self.factors.len(),
                entries_multiplicity(self.entry_seq().take(i as int), k@) == 0,
            decreases self.factors.len() - i,
        {
            proof {
                let s = self.entry_seq();
                assert(s.take(i as int + 1).drop_last() =~= s.take(i as int));
            }
            if self.factors[i].equals(k) {
                let r = self.multiplicities[i];
                proof {
                    self.lemma_unique_hit(i as int, k@);
                }
                return r;
            }
            i = i + 1;
        }
        assert(self.entry_seq().take(i as int) =~= self.entry_seq());
        0
    }

    /// With distinct factors, `k` found at index `i` has exactly that entry's multiplicity.
    proof fn lemma_unique_hit(&self, i: int, k: nat)
        requires
            self.wf(),
            0 <= i < self.entry_seq().len(),
            self.entry_seq()[i].0 == k,
        ensures
            entries_multiplicity(self.entry_seq(), k) == self.entry_seq()[i].1,
    {
        let s = self.entry_seq();
        lemma_single_hit(s, i, k);
    }

    /// Adds one to the multiplicity of `p`, inserting it where it is absent.
    pub fn record(&mut self, p: &Natural)
        requires
            old(self).wf(),
            p.wf(),
            p@ >= 2,
            old(self).total_count() < u64::MAX,
        ensures
            final(self).wf(),
            final(self).has_sign() == old(self).has_sign(),
            final(self).total_count() == old(self).total_count() + 1,
            entries_product(final(self).entry_seq()) == entries_product(old(self).entry_seq()) * p@,
            forall|k: int|
                #![trigger final(self).multiplicity(k)]
                final(self).multiplicity(k) == old(self).multiplicity(k) + if k == p@ as int {
                    1nat
                } else {
                    0nat
                },
    {
        let ghost s = self.entry_seq();
        let mut i: usize = 0;
        while i < self.factors.len()
            invariant
                self.wf(),
                self.entry_seq() == s,
                s == old(self).entry_seq(),
                self.total_count() == old(self).total_count(),
                self.has_sign() == old(self).has_sign(),
                self.total_count() < u64::MAX,
                p.wf(),
                i <= self.factors.len(),
                forall|j: int| 0 <= j < i ==> self.factors@[j]@ != p@,
            decreases self.factors.len() - i,
        {
            if self.factors[i].equals(p) {
                let m = self.multiplicities[i];
                self.multiplicities.set(i, m + 1);
                self.total = self.total + 1;
                proof {
                    assert(s[i as int].0 == p@);
                    assert(s[i as int].1 == m as nat);
                    assert(self.entry_seq() =~= s.update(i as int, (s[i as int].0, s[i as int].1 + 1)));
                    assert forall|k: int| #![trigger self.multiplicity(k)]
                        self.multiplicity(k) == old(self).multiplicity(k) + if k == p@ as int {
                            1nat
                        } else {
                            0nat
                        } by {
                        if k >= 0 {
                            lemma_entries_bump(s, i as int, k as nat);
                        }
                    }
                    lemma_entries_bump(s, i as int, 0);
                }
                return;
            }
            i = i + 1;
        }
        self.factors.push(p.clone());
        self.multiplicities.push(1);
        self.total = self.total + 1;
        proof {
            assert(self.entry_seq() =~= s.push((p@, 1nat)));
            assert(pow(p@ as int, 1) == p@ as int) by {
                reveal(pow);
                assert(pow(p@ as int, 0) == 1);
            }
            assert forall|k: int| #![trigger self.multiplicity(k)]
                self.multiplicity(k) == old(self).multiplicity(k) + if k == p@ as int {
                    1nat
                } else {
                    0nat
                } by {
                if k >= 0 {
                    lemma_entries_push(s, (p@, 1nat), k as nat);
                }
            }
            lemma_entries_push(s, (p@, 1nat), 0);
        }
    }
}

/// A number still to be split, with the additive constant `a` of the sequence
/// `x -> (x * x mod n) + a` that splits it.
pub struct WorkItem {
    n: Natural,
    a: u64,
}

/// A factorization in progress: the factors found so far and a stack of numbers still
/// to be split. A composite factor that a split yields is pushed with its constant
/// raised by one, which escapes the cycle that produced it.
pub struct FactorJob {
    map: FactorMap,
    pending: Vec<WorkItem>,
    number: Ghost<int>,
}

impl FactorJob {
    /// The numbers still to be split, bottom of the stack first.
    pub closed spec fn pending_values(&self) -> Seq<nat> {
        Seq::new(self.pending@.len(), |i: int| self.pending@[i].n@)
    }

    /// The constants that go with `pending_values`.
    pub closed spec fn pending_constants(&self) -> Seq<u64> {
        Seq::new(self.pending@.len(), |i: int| self.pending@[i].a)
    }

    /// The number being factored.
    pub closed spec fn number(&self) -> int {
        self.number@
    }

    /// The factors found so far.
    pub closed spec fn factors(&self) -> FactorMap {
        self.map
    }

    pub closed spec fn wf(&self) -> bool {
        &&& self.map.wf()
        &&& forall|i: int| 0 <= i < self.pending@.len() ==> #[trigger] self.pending@[i].n.wf()
        &&& forall|i: int| 0 <= i < self.pending@.len() ==> #[trigger] self.pending@[i].n@ >= 2
        &&& forall|i: int| 0 <= i < self.pending@.len() ==> #[trigger] self.pending@[i].a >= 1
        &&& self.number@ == 0 ==> {
            &&& self.map.entry_seq().len() == 0
            &&& !self.map.has_sign()
            &&& self.pending@.len() == 0
        }
        &&& self.number@ != 0 ==> self.map.signed_product() * values_product(self.pending_values())
            == self.number@
    }

    /// Starts factoring the number `-magnitude` (where `negative`) or `magnitude`.
    /// A negative number records `-1 -> 1`; zero and one have no factors; any larger
    /// magnitude becomes the one pending number, with constant 1.
    pub fn start(negative: bool, magnitude: Natural) -> (r: FactorJob)
        requires
            magnitude.wf(),
        ensures
            r.wf(),
            r.number() == if negative {
                -(magnitude@ as int)
            } else {
                magnitude@ as int
            },
            r.factors().entry_seq().len() == 0,
            r.factors().has_sign() == (negative && magnitude@ != 0),
            r.factors().total_count() == 0,
            r.pending_values() == if magnitude@ >= 2 {
                seq![magnitude@]
            } else {
                Seq::<nat>::empty()
            },
            r.pending_constants() == if magnitude@ >= 2 {
                seq![1u64]
            } else {
                Seq::<u64>::empty()
            },
    {
        let ghost number: int = if negative {
            -(magnitude@ as int)
        } else {
            magnitude@ as int
        };
        let mut map = FactorMap::new();
        let mut pending: Vec<WorkItem> = Vec::new();
        if magnitude.is_zero() {
            return FactorJob { map, pending, number: Ghost(number) };
        }
        if negative {
            map.negative = true;
        }
        if !magnitude.is_one() {
            pending.push(WorkItem { n: magnitude, a: 1 });
        }
        let r = FactorJob { map, pending, number: Ghost(number) };
        proof {
            assert(r.map.entry_seq().len() == 0);
            assert(entries_product(r.map.entry_seq()) == 1);
            if r.pending@.len() == 1 {
                assert(r.pending_values() =~= seq![r.pending@[0].n@]);
                assert(r.pending_values().drop_last() =~= Seq::<nat>::empty());
                assert(r.pending_values()[0] == magnitude@);
                assert(values_product(r.pending_values()) == values_product(
                    r.pending_values().drop_last(),
                ) * r.pending_values().last());
                assert(values_product(r.pending_values()) == magnitude@);
                assert(r.pending_constants() =~= seq![1u64]);
            } else {
                assert(r.pending_values() =~= Seq::<nat>::empty());
                assert(r.pending_constants() =~= Seq::<u64>::empty());
            }
        }
        r
    }

    /// No number is left to split: the factorization is complete.
    pub fn is_finished(&self) -> (r: bool)
        ensures
            r == (self.pending_values().len() == 0),
    {
        self.pending.len() == 0
    }

    /// The number on top of the stack: the one to split next.
    pub fn current_value(&self) -> (r: Natural)
        requires
            self.wf(),
            self.pending_values().len() > 0,
        ensures
            r.wf(),
            r@ == self.pending_values().last(),
            r@ >= 2,
    {
        let ghost last = self.pending@.len() - 1;
        assert(self.pending@[last].n@ >= 2);
        self.pending[self.pending.len() - 1].n.clone()
    }

    /// The constant that goes with `current_value`.
    pub fn current_constant(&self) -> (r: u64)
        requires
            self.pending_values().len() > 0,
        ensures
            r == self.pending_constants().last(),
    {
        self.pending[self.pending.len() - 1].a
    }

    /// The factors found so far.
    pub fn factor_map(&self) -> (r: &FactorMap)
        ensures
            *r == self.factors(),
    {
        &self.map
    }

    /// Hands over the factors found.
    pub fn into_factors(self) -> (r: FactorMap)
        ensures
            r == self.factors(),
    {
        self.map
    }

    /// Takes the split `n = t * rest` of the number on top of the stack, with the
    /// primality verdicts on both parts. A part that is not composite is recorded as a
    /// factor. A composite `t` is pushed with the constant raised by one; a composite
    /// `rest` other than 1 stays in place of `n` with its constant.
    pub fn split(&mut self, t: Natural, rest: Natural, t_composite: bool, rest_composite: bool)
        requires
            old(self).wf(),
            old(self).pending_values().len() > 0,
            t.wf(),
            rest.wf(),
            t@ >= 2,
            t@ * rest@ == old(self).pending_values().last(),
            !rest_composite ==> rest@ >= 2,
            t_composite ==> old(self).pending_constants().last() < u64::MAX,
            old(self).factors().total_count() + 2 <= u64::MAX,
        ensures
            final(self).wf(),
            final(self).number() == old(self).number(),
            final(self).factors().has_sign() == old(self).factors().has_sign(),
            final(self).factors().total_count() == old(self).factors().total_count() + (if t_composite {
                0nat
            } else {
                1nat
            }) + (if rest_composite {
                0nat
            } else {
                1nat
            }),
            forall|k: int|
                #![trigger final(self).factors().multiplicity(k)]
                final(self).factors().multiplicity(k) == old(self).factors().multiplicity(k) + (if k
                    == t@ && !t_composite {
                    1nat
                } else {
                    0nat
                }) + (if k == rest@ && !rest_composite {
                    1nat
                } else {
                    0nat
                }),
            final(self).pending_values() == split_values(
                old(self).pending_values(),
                t@,
                rest@,
                t_composite,
                rest_composite,
            ),
            final(self).pending_constants() == split_constants(
                old(self).pending_constants(),
                t_composite,
                rest_composite && rest@ != 1,
            ),
    {
        let ghost old_values = self.pending_values();
        let ghost old_constants = self.pending_constants();
        let ghost old_product = self.map.signed_product();
        let ghost old_map = self.map;
        let ghost n = old_values.last();
        let ghost base = old_values.drop_last();
        let item = self.pending.pop().unwrap();
        let a = item.a;
        proof {
            assert(self.pending_values() =~= base);
            assert(self.pending_constants() =~= old_constants.drop_last());
            assert(item.n@ == n);
            assert(values_product(old_values) == values_product(base) * n);
        }
        let ghost mid_map = self.map;
        if !t_composite {
            self.map.record(&t);
        }
        let ghost after_t = self.map;
        if !rest_composite {
            self.map.record(&rest);
        } else if !rest.is_one() {
            self.pending.push(WorkItem { n: rest, a });
        }
        if t_composite {
            self.pending.push(WorkItem { n: t, a: a + 1 });
        }
        proof {
            let vb = values_product(base);
            let tt = t@ as int;
            let rr = rest@ as int;
            let e0 = entries_product(mid_map.entry_seq());
            let e1 = entries_product(after_t.entry_seq());
            let e2 = entries_product(self.map.entry_seq());
            let f1: int = if t_composite { 1 } else { tt };
            let f2: int = if rest_composite { 1 } else { rr };
            assert(e1 == e0 * f1);
            assert(e2 == e1 * f2);
            let v2 = values_product(self.pending_values());
            assert(e2 == e0 * f1 * f2) by (nonlinear_arith)
                requires
                    e1 == e0 * f1,
                    e2 == e1 * f2,
            ;
            let g1: int = if rest_composite && rr != 1 { rr } else { 1 };
            let g2: int = if t_composite { tt } else { 1 };
            let pv1 = if rest_composite && rr != 1 { base.push(rest@) } else { base };
            if rest_composite && rr != 1 {
                lemma_values_push(base, rest@);
            }
            if t_composite {
                lemma_values_push(pv1, t@);
                assert(self.pending_values() =~= pv1.push(t@));
            } else {
                assert(self.pending_values() =~= pv1);
            }
            assert(v2 == vb * g1 * g2);
            assert(self.pending_values() == split_values(old_values, t@, rest@, t_composite, rest_composite));
            assert(self.pending_constants() =~= split_constants(
                old_constants,
                t_composite,
                rest_composite && rest@ != 1,
            ));
            assert(f1 * f2 * g1 * g2 == tt * rr) by (nonlinear_arith)
                requires
                    f1 == (if t_composite { 1 } else { tt }),
                    f2 == (if rest_composite { 1 } else { rr }),
                    g1 == (if rest_composite && rr != 1 { rr } else { 1 }),
                    g2 == (if t_composite { tt } else { 1 }),
            ;
            if self.number@ != 0 {
                let sg: int = if old_map.has_sign() { -1 } else { 1 };
                assert(mid_map == old_map);
                assert(old_product == sg * e0) by {
                    if old_map.has_sign() {
                        assert(old_product == -e0);
                    } else {
                        assert(old_product == e0);
                    }
                }
                assert(self.map.has_sign() == old_map.has_sign());
                assert(self.map.signed_product() == sg * e2) by {
                    if old_map.has_sign() {
                        assert(self.map.has_sign());
                        assert(self.map.signed_product() == -entries_product(self.map.entry_seq()));
                        assert(sg * e2 == -e2) by (nonlinear_arith)
                            requires
                                sg == -1,
                        ;
                    } else {
                        assert(!self.map.has_sign());
                        assert(self.map.signed_product() == e2);
                        assert(sg * e2 == e2) by (nonlinear_arith)
                            requires
                                sg == 1,
                        ;
                    }
                }
                assert(old_product * (vb * n) == self.number@);
                assert(sg * e0 * (vb * tt * rr) == self.number@) by (nonlinear_arith)
                    requires
                        old_product == sg * e0,
                        old_product * (vb * n) == self.number@,
                        n == tt * rr,
                ;
                assert(sg * e2 * v2 == sg * e0 * (vb * (f1 * f2 * g1 * g2))) by (nonlinear_arith)
                    requires
                        e2 == e0 * f1 * f2,
                        v2 == vb * g1 * g2,
                ;
            } else {
                assert(old_values.len() == 0);
            }
            assert forall|i: int| 0 <= i < self.pending@.len() implies #[trigger] self.pending@[i].n@ >= 2 by {
                if i < base.len() {
                    assert(self.pending@[i].n@ == old_values[i]);
                }
            }
        }
    }
}

/// Steps between two batched gcd checks of the accumulated product.
pub const GCD_BATCH: u64 = 32;

/// What the walk does after a step.
#[derive(PartialEq, Eq, Structural, Clone, Copy, Debug)]
pub enum WalkStep {
    /// A divisor turned up: retrace from the saved point to isolate it.
    Retrace,
    /// Take the next step of the round; where `save_point`, a gcd check found nothing
    /// at this step, and the current point becomes the one to retrace from.
    Continue { save_point: bool },
    /// The round is over: reseed from the current point, take this many plain steps,
    /// and save the point reached before the next round of as many steps.
    NewRound(u64),
    /// The next round would be longer than 64 bits can count.
    Exhausted,
}

/// Brent's doubling schedule for the cycle search: a round of `k` steps, a gcd check
/// on the steps where `k mod 32 == 1`, and after each round a batch of `l` plain steps
/// before the next round of `l` steps, `l` doubling each time.
pub struct BrentSchedule {
    k: u64,
    l: u64,
}

impl BrentSchedule {
    /// Steps left in the current round.
    pub closed spec fn steps_left(&self) -> nat {
        self.k as nat
    }

    /// Length of the next round.
    pub closed spec fn span(&self) -> nat {
        self.l as nat
    }

    pub closed spec fn wf(&self) -> bool {
        1 <= self.l && self.k <= self.l
    }

    /// Both counters start at 1.
    pub fn new() -> (r: BrentSchedule)
        ensures
            r.wf(),
            r.steps_left() == 1,
            r.span() == 1,
    {
        BrentSchedule { k: 1, l: 1 }
    }

    /// Whether this step ends with a gcd check of the accumulated product.
    pub fn gcd_due(&self) -> (r: bool)
        ensures
            r == (self.steps_left() % (GCD_BATCH as nat) == 1),
    {
        self.k % GCD_BATCH == 1
    }

    /// Counts one step of the round; true when the round is over.
    pub fn count_step(&mut self) -> (round_over: bool)
        requires
            old(self).wf(),
            old(self).steps_left() >= 1,
        ensures
            final(self).wf(),
            final(self).steps_left() == old(self).steps_left() - 1,
            final(self).span() == old(self).span(),
            round_over == (final(self).steps_left() == 0),
    {
        self.k = self.k - 1;
        self.k == 0
    }

    /// Decides what follows one step of the walk. `gcd_nontrivial` says that this
    /// step's gcd check (made only where `gcd_due`) found a divisor other than 1: then
    /// the schedule stays as it is and the saved point is to be retraced. Otherwise
    /// the step is counted, and a check that found nothing saves the current point;
    /// a round that ends starts the next one, whose plain steps come first.
    pub fn after_step(&mut self, gcd_nontrivial: bool) -> (r: WalkStep)
        requires
            old(self).wf(),
            old(self).steps_left() >= 1,
            gcd_nontrivial ==> old(self).steps_left() % (GCD_BATCH as nat) == 1,
        ensures
            final(self).wf(),
            gcd_nontrivial ==> r == WalkStep::Retrace && final(self).steps_left() == old(
                self,
            ).steps_left() && final(self).span() == old(self).span(),
            !gcd_nontrivial && old(self).steps_left() > 1 ==> r == (WalkStep::Continue {
                save_point: old(self).steps_left() % (GCD_BATCH as nat) == 1,
            }) && final(self).steps_left() == old(self).steps_left() - 1 && final(self).span()
                == old(self).span(),
            !gcd_nontrivial && old(self).steps_left() == 1 && old(self).span() <= u64::MAX / 2
                ==> r == WalkStep::NewRound(old(self).span() as u64) && final(self).steps_left()
                == old(self).span() && final(self).span() == 2 * old(self).span(),
            !gcd_nontrivial && old(self).steps_left() == 1 && old(self).span() > u64::MAX / 2
                ==> r == WalkStep::Exhausted,
            final(self).steps_left() >= 1 || r == WalkStep::Exhausted,
    {
        if gcd_nontrivial {
            return WalkStep::Retrace;
        }
        let save_point = self.gcd_due();
        if !self.count_step() {
            return WalkStep::Continue { save_point };
        }
        match self.next_round() {
            Some(batch) => WalkStep::NewRound(batch),
            None => WalkStep::Exhausted,
        }
    }

    /// Starts the next round: its length is the current span, and the span doubles.
    /// Returns the number of plain steps to take first, which is that same length;
    /// `None`, and no change, where the doubled span would not fit in 64 bits.
    pub fn next_round(&mut self) -> (r: Option<u64>)
        requires
            old(self).wf(),
        ensures
            final(self).wf(),
            match r {
                Some(b) => {
                    &&& b == old(self).span()
                    &&& final(self).steps_left() == old(self).span()
                    &&& final(self).span() == 2 * old(self).span()
                },
                None => {
                    &&& old(self).span() > u64::MAX / 2
                    &&& final(self).steps_left() == old(self).steps_left()
                    &&& final(self).span() == old(self).span()
                },
            },
    {
        if self.l > u64::MAX / 2 {
            return None;
        }
        self.k = self.l;
        self.l = self.l * 2;
        Some(self.k)
    }
}

/// The stack of pending numbers after a split of its top into `t * rest`.
pub open spec fn split_values(
    values: Seq<nat>,
    t: nat,
    rest: nat,
    t_composite: bool,
    rest_composite: bool,
) -> Seq<nat> {
    let base = values.drop_last();
    let kept = if rest_composite && rest != 1 {
        base.push(rest)
    } else {
        base
    };
    if t_composite {
        kept.push(t)
    } else {
        kept
    }
}

/// The constants of the stack after a split: a kept rest keeps the constant of the
/// number it replaces, and a pushed composite factor gets that constant plus one.
pub open spec fn split_constants(constants: Seq<u64>, t_composite: bool, rest_kept: bool) -> Seq<
    u64,
> {
    let a = constants.last();
    let base = constants.drop_last();
    let kept = if rest_kept {
        base.push(a)
    } else {
        base
    };
    if t_composite {
        kept.push((a + 1) as u64)
    } else {
        kept
    }
}

/// Once no number is pending, the factors multiply back to the number factored: the
/// sign entry times every `factor ^ multiplicity` is that number. The entries form a
/// mapping: distinct factors, each at least 2, each with a positive multiplicity.
pub proof fn lemma_finished_job_reconstructs(job: &FactorJob)
    requires
        job.wf(),
        job.pending_values().len() == 0,
        job.number() != 0,
    ensures
        job.factors().signed_product() == job.number(),
        forall|i: int|
            0 <= i < job.factors().entry_seq().len() ==> #[trigger] job.factors().entry_seq()[i].0
                >= 2 && job.factors().entry_seq()[i].1 >= 1,
        forall|i: int, j: int|
            0 <= i < j < job.factors().entry_seq().len() ==> job.factors().entry_seq()[i].0
                != job.factors().entry_seq()[j].0,
        job.factors().has_sign() == (job.number() < 0),
{
    assert(values_product(job.pending_values()) == 1);
    let m = job.factors();
    assert forall|i: int| 0 <= i < m.entry_seq().len() implies #[trigger] m.entry_seq()[i].0 >= 2
        && m.entry_seq()[i].1 >= 1 by {
        assert(m.factors@[i]@ >= 2);
        assert(m.multiplicities@[i] >= 1);
    }
    lemma_entries_product_positive(m.entry_seq());
}

/// A product of powers of factors that are all at least 2 is positive.
proof fn lemma_entries_product_positive(s: Seq<(nat, nat)>)
    requires
        forall|i: int| 0 <= i < s.len() ==> #[trigger] s[i].0 >= 2,
    ensures
        entries_product(s) > 0,
    decreases s.len(),
{
    if s.len() > 0 {
        lemma_entries_product_positive(s.drop_last());
        vstd::arithmetic::power::lemma_pow_positive(s.last().0 as int, s.last().1);
        let p = entries_product(s.drop_last());
        let q = pow(s.last().0 as int, s.last().1);
        assert(p * q > 0) by (nonlinear_arith)
            requires
                p > 0,
                q > 0,
        ;
    }
}

/// At every state of a job the factors found and the numbers still pending account
/// for the whole number: the sign entry times every `factor ^ multiplicity`, times
/// the product of the pending numbers, is the number factored (for a number other
/// than 0; factoring 0 finds nothing). So whenever a job finishes, its factors
/// multiply back to that number.
pub proof fn lemma_job_accounts_for_number(job: &FactorJob)
    requires
        job.wf(),
    ensures
        job.number() != 0 ==> job.factors().signed_product() * values_product(
            job.pending_values(),
        ) == job.number(),
        job.number() == 0 ==> job.factors().entry_seq().len() == 0 && !job.factors().has_sign()
            && job.pending_values().len() == 0,
        forall|i: int|
            0 <= i < job.pending_values().len() ==> #[trigger] job.pending_values()[i] >= 2,
{
}

/// In a sequence whose factors are distinct, the one entry for `k` carries all of its multiplicity.
proof fn lemma_single_hit(s: Seq<(nat, nat)>, i: int, k: nat)
    requires
        0 <= i < s.len(),
        s[i].0 == k,
        forall|a: int, b: int| 0 <= a < b < s.len() ==> s[a].0 != s[b].0,
    ensures
        entries_multiplicity(s, k) == s[i].1,
    decreases s.len(),
{
    if i == s.len() - 1 {
        lemma_absent(s.drop_last(), k);
    } else {
        lemma_single_hit(s.drop_last(), i, k);
    }
}

proof fn lemma_absent(s: Seq<(nat, nat)>, k: nat)
    requires
        forall|a: int| 0 <= a < s.len() ==> s[a].0 != k,
    ensures
        entries_multiplicity(s, k) == 0,
    decreases s.len(),
{
    if s.len() > 0 {
        lemma_absent(s.drop_last(), k);
    }
}

} // verus!
