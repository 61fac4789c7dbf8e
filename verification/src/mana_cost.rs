//! Mana costs: an ordered sequence of pips, each a single requirement or a
//! hybrid choice between two. Mana value sums per-pip values; a hybrid pip is
//! worth the larger of its two options, a variable ("X") pip is worth zero.

use vstd::prelude::*;

verus! {

#[derive(Debug, Clone, Copy, PartialEq, Eq, Structural)]
pub enum Unit {
    Generic { amount: u8 },
    X,
    White,
    Blue,
    Black,
    Red,
    Green,
    Colorless,
}

#[derive(Debug, Clone, Copy, PartialEq, Eq, Structural)]
pub enum Pip {
    Single(Unit),
    Hybrid(Unit, Unit),
}

#[derive(Debug, Clone, PartialEq, Eq)]
pub struct ManaCost {
    pub pips: Vec<Pip>,
}

pub open spec fn unit_value(u: Unit) -> int {
    match u {
        Unit::Generic { amount } => amount as int,
        Unit::X => 0,
        Unit::White | Unit::Blue | Unit::Black | Unit::Red | Unit::Green | Unit::Colorless => 1,
    }
}

pub open spec fn pip_value(p: Pip) -> int {
    match p {
        Pip::Single(u) => unit_value(u),
        Pip::Hybrid(a, b) => if unit_value(a) >= unit_value(b) {
            unit_value(a)
        } else {
            unit_value(b)
        },
    }
}

/// Total mana value of a sequence of pips.
pub open spec fn pips_value(s: Seq<Pip>) -> int
    decreases s.len(),
{
    if s.len() == 0 {
        0
    } else {
        pip_value(s[0]) + pips_value(s.drop_first())
    }
}

pub proof fn lemma_pips_value_nonneg(s: Seq<Pip>)
    ensures
        pips_value(s) >= 0,
    decreases s.len(),
{
    if s.len() > 0 {
        lemma_pips_value_nonneg(s.drop_first());
    }
}

/// Summing one more pip on the right extends the total by that pip's value.
pub proof fn lemma_pips_value_push(s: Seq<Pip>, p: Pip)
    ensures
        pips_value(s.push(p)) == pips_value(s) + pip_value(p),
    decreases s.len(),
{
    let t = s.push(p);
    assert(t.len() == s.len() + 1);
    if s.len() == 0 {
        assert(t[0] == p);
        assert(t.drop_first() =~= Seq::<Pip>::empty());
        assert(pips_value(t.drop_first()) == 0);
        assert(pips_value(t) == pip_value(t[0]) + pips_value(t.drop_first()));
        assert(pips_value(s) == 0);
    } else {
        assert(t[0] == s[0]);
        assert(t.drop_first() =~= s.drop_first().push(p));
        lemma_pips_value_push(s.drop_first(), p);
        assert(pips_value(t) == pip_value(t[0]) + pips_value(t.drop_first()));
        assert(pips_value(s) == pip_value(s[0]) + pips_value(s.drop_first()));
    }
}

impl Unit {
    pub fn mana_value(&self) -> (r: u8)
        ensures
            r as int == unit_value(*self),
    {
        match self {
            Self::Generic { amount } => *amount,
            Self::X => 0,
            Self::White | Self::Blue | Self::Black | Self::Red | Self::Green | Self::Colorless =>
                1,
        }
    }
}

impl Pip {
    /// The value of a hybrid pip is the maximum of its two options' values.
    pub fn mana_value(&self) -> (r: u8)
        ensures
            r as int == pip_value(*self),
            self matches Pip::Hybrid(a, b) ==> r as int == unit_value(*a)
                || r as int == unit_value(*b),
            self matches Pip::Hybrid(a, b) ==> r as int >= unit_value(*a)
                && r as int >= unit_value(*b),
    {
        match self {
            Self::Single(unit) => unit.mana_value(),
            Self::Hybrid(a, b) => {
                let va = a.mana_value();
                let vb = b.mana_value();
                if va >= vb {
                    va
                } else {
                    vb
                }
            },
        }
    }
}

/// Sums the values of a slice of pips.
pub fn sum_pip_values(pips: &[Pip]) -> (r: u8)
    requires
        pips_value(pips@) <= u8::MAX,
    ensures
        r as int == pips_value(pips@),
{
    let mut total: u8 = 0;
    let mut i: usize = 0;
    while i < pips.len()
        invariant
            0 <= i <= pips@.len(),
            total as int == pips_value(pips@.take(i as int)),
            pips_value(pips@) <= u8::MAX,
        decreases pips@.len() - i,
    {
        proof {
            assert(pips@.take(i + 1).drop_last() =~= pips@.take(i as int));
            lemma_pips_value_push(pips@.take(i as int), pips@[i as int]);
            assert(pips@.take(i as int).push(pips@[i as int]) =~= pips@.take(i + 1));
            lemma_pips_value_split(pips@, i + 1);
            lemma_pips_value_nonneg(pips@.skip(i + 1));
        }
        total = total + pips[i].mana_value();
        i = i + 1;
    }
    proof {
        assert(pips@.take(pips@.len() as int) =~= pips@);
    }
    total
}

/// The value of short, explicitly listed costs.
pub proof fn lemma_pips_value_one(a: Pip)
    ensures
        pips_value(seq![a]) == pip_value(a),
{
    assert(Seq::<Pip>::empty().push(a) =~= seq![a]);
    lemma_pips_value_push(Seq::<Pip>::empty(), a);
}

pub proof fn lemma_pips_value_two(a: Pip, b: Pip)
    ensures
        pips_value(seq![a, b]) == pip_value(a) + pip_value(b),
{
    lemma_pips_value_one(a);
    assert(seq![a].push(b) =~= seq![a, b]);
    lemma_pips_value_push(seq![a], b);
}

/// Splitting a sequence of pips splits its total value.
pub proof fn lemma_pips_value_split(s: Seq<Pip>, n: int)
    requires
        0 <= n <= s.len(),
    ensures
        pips_value(s) == pips_value(s.take(n)) + pips_value(s.skip(n)),
    decreases n,
{
    if n == 0 {
        assert(s.take(0) =~= Seq::<Pip>::empty());
        assert(s.skip(0) =~= s);
    } else {
        lemma_pips_value_split(s.drop_first(), n - 1);
        assert(s.take(n).drop_first() =~= s.drop_first().take(n - 1));
        assert(s.skip(n) =~= s.drop_first().skip(n - 1));
    }
}

impl ManaCost {
    pub open spec fn spec_mana_value(self) -> int {
        pips_value(self.pips@)
    }

    /// A cost is well formed when its total value fits the value type.
    pub open spec fn wf(self) -> bool {
        pips_value(self.pips@) <= u8::MAX
    }

    pub fn mana_value(&self) -> (r: u8)
        requires
            self.wf(),
        ensures
            r as int == self.spec_mana_value(),
    {
        sum_pip_values(self.pips.as_slice())
    }

    /// Borrows the cost as a slice of pips.
    pub fn as_ref(&self) -> (r: ManaCostRef<'_>)
        ensures
            r.pips@ == self.pips@,
    {
        ManaCostRef { pips: self.pips.as_slice() }
    }
}

/// A borrowed mana cost: a slice of pips.
#[derive(Debug, Clone, Copy, PartialEq, Eq)]
pub struct ManaCostRef<'a> {
    pub pips: &'a [Pip],
}

impl<'a> ManaCostRef<'a> {
    pub open spec fn spec_mana_value(self) -> int {
        pips_value(self.pips@)
    }

    pub open spec fn wf(self) -> bool {
        pips_value(self.pips@) <= u8::MAX
    }

    pub fn mana_value(&self) -> (r: u8)
        requires
            self.wf(),
        ensures
            r as int == self.spec_mana_value(),
    {
        sum_pip_values(self.pips)
    }
}

} // verus!
