use vstd::prelude::*;

verus! {

/// Weight of one limb: the radix of the little-endian representation.
pub open spec fn limb_base() -> int {
    0x1_0000_0000_0000_0000
}

/// The number that a little-endian sequence of 64-bit limbs denotes.
pub open spec fn limbs_value(s: Seq<u64>) -> nat
    decreases s.len(),
{
    if s.len() == 0 {
        0
    } else {
        (s[0] as nat + limb_base() * limbs_value(s.drop_first())) as nat
    }
}

/// No most significant zero limb: every number has exactly one such form.
pub open spec fn limbs_canonical(s: Seq<u64>) -> bool {
    s.len() == 0 || s.last() != 0
}

/// Two canonical limb sequences that denote the same number are the same sequence.
pub proof fn lemma_canonical_unique(s: Seq<u64>, t: Seq<u64>)
    requires
        limbs_canonical(s),
        limbs_canonical(t),
        limbs_value(s) == limbs_value(t),
    ensures
        s == t,
    decreases s.len(),
{
    if s.len() == 0 {
        if t.len() > 0 {
            lemma_canonical_nonempty_positive(t);
        }
    } else if t.len() == 0 {
        lemma_canonical_nonempty_positive(s);
    } else {
        let a0 = s[0] as int;
        let b0 = t[0] as int;
        let va = limbs_value(s.drop_first()) as int;
        let vb = limbs_value(t.drop_first()) as int;
        let bb = limb_base();
        assert(a0 + bb * va == b0 + bb * vb);
        assert(a0 == b0 && va == vb) by (nonlinear_arith)
            requires
                a0 + bb * va == b0 + bb * vb,
                0 <= a0 < bb,
                0 <= b0 < bb,
                0 <= va,
                0 <= vb,
                bb == 0x1_0000_0000_0000_0000int,
        {
            if va < vb {
                assert(bb * va + bb <= bb * vb);
            } else if vb < va {
                assert(bb * vb + bb <= bb * va);
            }
        }
        assert(limbs_canonical(s.drop_first())) by {
            if s.drop_first().len() > 0 {
                assert(s.drop_first().last() == s.last());
            }
        }
        assert(limbs_canonical(t.drop_first())) by {
            if t.drop_first().len() > 0 {
                assert(t.drop_first().last() == t.last());
            }
        }
        lemma_canonical_unique(s.drop_first(), t.drop_first());
        assert(s =~= seq![s[0]].add(s.drop_first()));
        assert(t =~= seq![t[0]].add(t.drop_first()));
    }
}

/// A canonical sequence with at least one limb denotes a positive number.
pub proof fn lemma_canonical_nonempty_positive(s: Seq<u64>)
    requires
        limbs_canonical(s),
        s.len() > 0,
    ensures
        limbs_value(s) > 0,
    decreases s.len(),
{
    if s.len() == 1 {
        assert(s.drop_first().len() == 0);
        assert(s[0] == s.last());
    } else {
        assert(s.drop_first().last() == s.last());
        lemma_canonical_nonempty_positive(s.drop_first());
        assert(limb_base() * limbs_value(s.drop_first()) > 0) by (nonlinear_arith)
            requires
                limbs_value(s.drop_first()) > 0,
                limb_base() > 0,
        ;
    }
}

/// A natural number of any size, held as little-endian 64-bit limbs.
pub struct Natural {
    limbs: Vec<u64>,
}

impl View for Natural {
    type V = nat;

    closed spec fn view(&self) -> nat {
        limbs_value(self.limbs@)
    }
}

impl Natural {
    /// The limbs have no most significant zero.
    pub closed spec fn wf(&self) -> bool {
        limbs_canonical(self.limbs@)
    }

    pub closed spec fn limb_seq(&self) -> Seq<u64> {
        self.limbs@
    }

    pub fn from_u64(v: u64) -> (r: Natural)
        ensures
            r.wf(),
            r@ == v as nat,
    {
        let mut limbs: Vec<u64> = Vec::new();
        if v != 0 {
            limbs.push(v);
        }
        let r = Natural { limbs };
        proof {
            if v != 0 {
                assert(r.limbs@.drop_first().len() == 0);
                assert(limbs_value(r.limbs@) == v as nat + limb_base() * limbs_value(r.limbs@.drop_first()));
            }
        }
        r
    }

    /// Builds a number from little-endian limbs; most significant zero limbs are dropped.
    pub fn from_limbs(limbs: Vec<u64>) -> (r: Natural)
        ensures
            r.wf(),
            r@ == limbs_value(limbs@),
    {
        let mut limbs = limbs;
        let ghost given = limbs@;
        while limbs.len() > 0 && limbs[limbs.len() - 1] == 0
            invariant
                limbs_value(limbs@) == limbs_value(given),
            decreases limbs.len(),
        {
            let ghost before = limbs@;
            limbs.pop();
            proof {
                lemma_drop_zero_top(before);
                assert(before.drop_last() =~= limbs@);
            }
        }
        Natural { limbs }
    }

    /// The limbs, least significant first, with no most significant zero.
    pub fn to_limbs(&self) -> (r: Vec<u64>)
        ensures
            r@ == self.limb_seq(),
            limbs_value(r@) == self@,
            self.wf() ==> limbs_canonical(r@),
    {
        self.limbs.clone()
    }

    pub fn is_zero(&self) -> (r: bool)
        requires
            self.wf(),
        ensures
            r == (self@ == 0),
    {
        proof {
            if self.limbs@.len() > 0 {
                lemma_canonical_nonempty_positive(self.limbs@);
            }
        }
        self.limbs.len() == 0
    }

    pub fn is_one(&self) -> (r: bool)
        requires
            self.wf(),
        ensures
            r == (self@ == 1),
    {
        let one = Natural::from_u64(1);
        self.equals(&one)
    }

    /// Exact comparison of the two numbers.
    pub fn equals(&self, other: &Natural) -> (r: bool)
        requires
            self.wf(),
            other.wf(),
        ensures
            r == (self@ == other@),
    {
        proof {
            if self@ == other@ {
                lemma_canonical_unique(self.limbs@, other.limbs@);
            }
        }
        if self.limbs.len() != other.limbs.len() {
            return false;
        }
        let mut i: usize = 0;
        while i < self.limbs.len()
            invariant
                self.limbs.len() == other.limbs.len(),
                i <= self.limbs.len(),
                forall|j: int| 0 <= j < i ==> self.limbs@[j] == other.limbs@[j],
                self@ == other@ ==> self.limbs@ == other.limbs@,
            decreases self.limbs.len() - i,
        {
            if self.limbs[i] != other.limbs[i] {
                return false;
            }
            i = i + 1;
        }
        assert(self.limbs@ =~= other.limbs@);
        true
    }
}

impl Clone for Natural {
    fn clone(&self) -> (r: Natural)
        ensures
            r@ == self@,
            r.wf() == self.wf(),
            r.limb_seq() == self.limb_seq(),
    {
        Natural { limbs: self.limbs.clone() }
    }
}

/// Dropping a most significant zero limb keeps the number.
proof fn lemma_drop_zero_top(s: Seq<u64>)
    requires
        s.len() > 0,
        s.last() == 0,
    ensures
        limbs_value(s.drop_last()) == limbs_value(s),
    decreases s.len(),
{
    if s.len() == 1 {
        assert(s.drop_last().len() == 0);
        assert(s.drop_first().len() == 0);
        assert(s[0] == s.last());
        assert(limbs_value(s) == s[0] as nat + limb_base() * limbs_value(s.drop_first()));
    } else {
        let d = s.drop_first();
        assert(d.last() == 0);
        lemma_drop_zero_top(d);
        assert(s.drop_last().drop_first() =~= d.drop_last());
        assert(s.drop_last()[0] == s[0]);
        assert(limbs_value(s.drop_last()) == s[0] as nat + limb_base() * limbs_value(
            s.drop_last().drop_first(),
        ));
        assert(limbs_value(s) == s[0] as nat + limb_base() * limbs_value(d));
    }
}

} // verus!
