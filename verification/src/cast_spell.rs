//! The mana payment solver and the spell-casting driver.
//!
//! Given a spell's cost and the battlefield, the solver decides whether the
//! cost is payable from currently untapped lands and, if so, commits exactly
//! the necessary taps; on failure it leaves the battlefield untouched. Colored
//! and hybrid pips are served first, each by the untapped, uncommitted source
//! of least activation cost (earliest such source on ties); the generic
//! remainder -- the cost's generic pips plus whatever the chosen sources
//! demand for their own activation -- is paid by the earliest remaining
//! untapped lands.

use vstd::prelude::*;
use crate::abilities::Ability;
use crate::battlefield::{Battlefield, Event, InPlayObject};
use crate::card::Card;
use crate::mana_cost::{pip_value, pips_value, ManaCostRef, Pip, Unit};
use crate::player::OwnedCard;

verus! {

/// An object that can still pay for something: an untapped land.
pub open spec fn is_untapped_land(o: InPlayObject) -> bool {
    !o.tapped && o.card.card.spec_is_land()
}

/// How many of the first `upto` objects are untapped lands.
pub open spec fn count_untapped_lands(s: Seq<InPlayObject>, upto: int) -> int
    decreases upto,
{
    if upto <= 0 {
        0
    } else {
        count_untapped_lands(s, upto - 1) + if is_untapped_land(s[upto - 1]) {
            1int
        } else {
            0int
        }
    }
}

/// A generic pip, payable by any source.
pub open spec fn pip_is_generic(p: Pip) -> bool {
    p matches Pip::Single(Unit::Generic { .. })
}

/// The unit a non-generic pip demands of a source. A hybrid pip is resolved
/// by a fixed simplification: only its black half is treated as satisfying
/// (the one hybrid cost in the modeled deck only cares about that half).
pub open spec fn pip_unit(p: Pip) -> Unit {
    match p {
        Pip::Single(u) => u,
        Pip::Hybrid(_, _) => Unit::Black,
    }
}

/// The sum of the generic pips' amounts among the first `upto` pips.
pub open spec fn generic_sum(s: Seq<Pip>, upto: int) -> int
    decreases upto,
{
    if upto <= 0 {
        0
    } else {
        generic_sum(s, upto - 1) + match s[upto - 1] {
            Pip::Single(Unit::Generic { amount }) => amount as int,
            _ => 0int,
        }
    }
}

/// How many of the first `upto` pips are colored (non-generic).
pub open spec fn colored_count(s: Seq<Pip>, upto: int) -> int
    decreases upto,
{
    if upto <= 0 {
        0
    } else {
        colored_count(s, upto - 1) + if pip_is_generic(s[upto - 1]) {
            0int
        } else {
            1int
        }
    }
}

/// What one ability offers towards producing the unit `u`: `None` when it is
/// no mana ability or cannot produce `u`, otherwise the value of its own
/// activation cost (zero for a free source).
pub open spec fn match_cost(a: Ability, u: Unit) -> Option<int> {
    match a {
        Ability::Mana(ma) => match ma.produce {
            crate::abilities::ManaProduction::Single { possible } => if possible@.contains(u) {
                match ma.cost.mana_cost {
                    None => Some(0int),
                    Some(mc) => Some(pips_value(mc.pips@)),
                }
            } else {
                None
            },
        },
        _ => None,
    }
}

/// The smaller of two optional costs, where `None` means "cannot produce".
pub open spec fn combine_min(a: Option<int>, b: Option<int>) -> Option<int> {
    match (a, b) {
        (Option::None, c) => c,
        (c, Option::None) => c,
        (Option::Some(x), Option::Some(y)) => Some(
            if y < x {
                y
            } else {
                x
            },
        ),
    }
}

/// The least activation cost at which the first `upto` abilities can produce
/// the unit `u`, or `None` when none of them can.
pub open spec fn min_match_cost(s: Seq<Ability>, u: Unit, upto: int) -> Option<int>
    decreases upto,
{
    if upto <= 0 {
        None
    } else {
        combine_min(min_match_cost(s, u, upto - 1), match_cost(s[upto - 1], u))
    }
}

/// The least cost at which an in-play object can produce what the pip `p`
/// demands, or `None` when it cannot. Only single-faced cards produce mana.
pub open spec fn produce_cost(o: InPlayObject, p: Pip) -> Option<int> {
    match o.card.card {
        crate::card::Card::Single(face) => min_match_cost(
            face.abilities@,
            pip_unit(p),
            face.abilities@.len() as int,
        ),
        _ => None,
    }
}

/// The source the solver picks for the pip `p` among the first `upto`
/// objects: the untapped, uncommitted land of least production cost, the
/// earliest on ties. The result carries the index and that cost.
pub open spec fn pick_source(
    objects: Seq<InPlayObject>,
    committed: Seq<int>,
    p: Pip,
    upto: int,
) -> Option<(int, int)>
    decreases upto,
{
    if upto <= 0 {
        None
    } else {
        let prev = pick_source(objects, committed, p, upto - 1);
        let i = upto - 1;
        if !committed.contains(i) && is_untapped_land(objects[i]) {
            match produce_cost(objects[i], p) {
                Some(c) => match prev {
                    None => Some((i, c)),
                    Some((j, cj)) => if c < cj {
                        Some((i, c))
                    } else {
                        Some((j, cj))
                    },
                },
                None => prev,
            }
        } else {
            prev
        }
    }
}

/// The solver's colored step over the first `upto` pips: the committed
/// sources, in pip order, and the extra generic mana their activation
/// demands; `None` when some colored pip finds no source.
pub open spec fn colored_plan(objects: Seq<InPlayObject>, pips: Seq<Pip>, upto: int) -> Option<
    (Seq<int>, int),
>
    decreases upto,
{
    if upto <= 0 {
        Some((Seq::empty(), 0int))
    } else {
        match colored_plan(objects, pips, upto - 1) {
            None => None,
            Some((chosen, extra)) => {
                if pip_is_generic(pips[upto - 1]) {
                    Some((chosen, extra))
                } else {
                    match pick_source(objects, chosen, pips[upto - 1], objects.len() as int) {
                        None => None,
                        Some((i, c)) => Some((chosen.push(i), extra + c)),
                    }
                }
            },
        }
    }
}

/// The solver's generic step: the first `n` untapped, uncommitted lands at or
/// after position `i`, or `None` when fewer exist.
pub open spec fn pick_generics(
    objects: Seq<InPlayObject>,
    committed: Seq<int>,
    n: int,
    i: int,
) -> Option<Seq<int>>
    decreases objects.len() - i,
{
    if n <= 0 {
        Some(Seq::empty())
    } else if i >= objects.len() || i < 0 {
        None
    } else if !committed.contains(i) && is_untapped_land(objects[i]) {
        match pick_generics(objects, committed, n - 1, i + 1) {
            None => None,
            Some(rest) => Some(seq![i] + rest),
        }
    } else {
        pick_generics(objects, committed, n, i + 1)
    }
}

/// The solver's whole decision: the committed sources for every pip of the
/// cost, or `None` when the cost is not payable. A cheap necessary-condition
/// check fails immediately when fewer untapped lands exist than the cost's
/// mana value; then every colored pip is served in the cost's listed order,
/// and the generic remainder is filled from the earliest lands left.
pub open spec fn solver_plan(objects: Seq<InPlayObject>, pips: Seq<Pip>) -> Option<Seq<int>> {
    if count_untapped_lands(objects, objects.len() as int) < pips_value(pips) {
        None
    } else {
        match colored_plan(objects, pips, pips.len() as int) {
            None => None,
            Some((chosen, extra)) => {
                match pick_generics(
                    objects,
                    chosen,
                    generic_sum(pips, pips.len() as int) + extra,
                    0,
                ) {
                    None => None,
                    Some(gens) => Some(chosen + gens),
                }
            },
        }
    }
}

/// An object after the solver taps it; every other field is kept.
pub open spec fn tap_obj(o: InPlayObject) -> InPlayObject {
    InPlayObject { tapped: true, ..o }
}

/// How many of the first `upto` object positions a plan commits -- the number
/// of lands the solver taps, and so the number of tap events it logs.
pub open spec fn tapped_count(plan: Seq<int>, upto: int) -> int
    decreases upto,
{
    if upto <= 0 {
        0
    } else {
        tapped_count(plan, upto - 1) + if plan.contains(upto - 1) {
            1int
        } else {
            0int
        }
    }
}

fn units_contain(units: &Vec<Unit>, u: Unit) -> (r: bool)
    ensures
        r == units@.contains(u),
{
    let mut i: usize = 0;
    while i < units.len()
        invariant
            0 <= i <= units@.len(),
            forall|j: int| 0 <= j < i ==> units@[j] != u,
        decreases units@.len() - i,
    {
        if units[i] == u {
            return true;
        }
        i = i + 1;
    }
    false
}

/// The least cost at which an object can produce what the pip demands:
/// `Some(c)` when it can for `c` extra generic mana (zero for a free source),
/// `None` when it cannot.
pub fn produces_color(object: &InPlayObject, pip: &Pip) -> (r: Option<u8>)
    requires
        object.card.wf(),
    ensures
        match r {
            Some(c) => produce_cost(*object, *pip) == Some(c as int),
            None => produce_cost(*object, *pip) is None,
        },
{
    let face = match &object.card.card {
        crate::card::Card::Single(face) => face,
        _ => {
            return None;
        },
    };
    let unit = match pip {
        Pip::Single(u) => *u,
        Pip::Hybrid(_, _) => Unit::Black,
    };
    let mut best: Option<u8> = None;
    let mut i: usize = 0;
    while i < face.abilities.len()
        invariant
            0 <= i <= face.abilities@.len(),
            face.wf(),
            unit == pip_unit(*pip),
            match best {
                Some(c) => min_match_cost(face.abilities@, unit, i as int) == Some(c as int),
                None => min_match_cost(face.abilities@, unit, i as int) is None,
            },
        decreases face.abilities@.len() - i,
    {
        let cur: Option<u8> = match &face.abilities[i] {
            Ability::Mana(ma) => {
                let crate::abilities::ManaProduction::Single { possible } = &ma.produce;
                if units_contain(possible, unit) {
                    match &ma.cost.mana_cost {
                        None => Some(0),
                        Some(mc) => {
                            assert(face.abilities@[i as int].wf());
                            Some(mc.mana_value())
                        },
                    }
                } else {
                    None
                }
            },
            _ => None,
        };
        best = match (best, cur) {
            (None, c) => c,
            (Some(x), None) => Some(x),
            (Some(x), Some(y)) => Some(
                if y < x {
                    y
                } else {
                    x
                },
            ),
        };
        i = i + 1;
    }
    best
}

/// Scans the whole battlefield for the source the solver commits to one pip:
/// the untapped, uncommitted land of least production cost, earliest on ties.
fn scan_source(
    objects: &Vec<InPlayObject>,
    committed: &Vec<bool>,
    pip: Pip,
    Ghost(gch): Ghost<Seq<int>>,
) -> (r: Option<(usize, u8)>)
    requires
        committed@.len() == objects@.len(),
        forall|j: int| 0 <= j < committed@.len() ==> (committed@[j] <==> gch.contains(j)),
        forall|j: int| 0 <= j < objects@.len() ==> (#[trigger] objects@[j]).card.wf(),
    ensures
        match r {
            Some((i, c)) => i < objects@.len() && pick_source(
                objects@,
                gch,
                pip,
                objects@.len() as int,
            ) == Some((i as int, c as int)),
            None => pick_source(objects@, gch, pip, objects@.len() as int) is None,
        },
{
    let mut best: Option<(usize, u8)> = None;
    let mut j: usize = 0;
    while j < objects.len()
        invariant
            0 <= j <= objects@.len(),
            committed@.len() == objects@.len(),
            forall|t: int| 0 <= t < committed@.len() ==> (committed@[t] <==> gch.contains(t)),
            forall|t: int| 0 <= t < objects@.len() ==> (#[trigger] objects@[t]).card.wf(),
            match best {
                Some((i, c)) => i < j && pick_source(objects@, gch, pip, j as int) == Some(
                    (i as int, c as int),
                ),
                None => pick_source(objects@, gch, pip, j as int) is None,
            },
        decreases objects@.len() - j,
    {
        if !committed[j] && !objects[j].tapped && objects[j].card.card.is_land() {
            let cost = produces_color(&objects[j], &pip);
            match cost {
                Some(c) => {
                    best = match best {
                        None => Some((j, c)),
                        Some((bi, bc)) => if c < bc {
                            Some((j, c))
                        } else {
                            Some((bi, bc))
                        },
                    };
                },
                None => (),
            }
        }
        j = j + 1;
    }
    best
}

} // verus!

verus! {

/// Membership in a pushed sequence.
pub proof fn lemma_contains_push(s: Seq<int>, x: int, y: int)
    ensures
        s.push(x).contains(y) <==> (s.contains(y) || x == y),
{
    if s.contains(y) {
        let i = choose|i: int| 0 <= i < s.len() && s[i] == y;
        assert(s.push(x)[i] == y);
    }
    if x == y {
        assert(s.push(x)[s.len() as int] == y);
    }
    if s.push(x).contains(y) {
        let i = choose|i: int| 0 <= i < s.push(x).len() && s.push(x)[i] == y;
        if i < s.len() {
            assert(s[i] == y);
        }
    }
}

/// Membership in a concatenation.
pub proof fn lemma_contains_concat(a: Seq<int>, b: Seq<int>, y: int)
    ensures
        (a + b).contains(y) <==> (a.contains(y) || b.contains(y)),
{
    if a.contains(y) {
        let i = choose|i: int| 0 <= i < a.len() && a[i] == y;
        assert((a + b)[i] == y);
    }
    if b.contains(y) {
        let i = choose|i: int| 0 <= i < b.len() && b[i] == y;
        assert((a + b)[a.len() + i] == y);
    }
    if (a + b).contains(y) {
        let i = choose|i: int| 0 <= i < (a + b).len() && (a + b)[i] == y;
        if i < a.len() {
            assert(a[i] == y);
        } else {
            assert(b[i - a.len()] == y);
        }
    }
}

/// Once the colored step has failed, considering more pips cannot revive it.
pub proof fn lemma_colored_plan_none_mono(
    objects: Seq<InPlayObject>,
    pips: Seq<Pip>,
    a: int,
    b: int,
)
    requires
        a <= b,
        colored_plan(objects, pips, a) is None,
    ensures
        colored_plan(objects, pips, b) is None,
    decreases b,
{
    if a < b && b > 0 {
        lemma_colored_plan_none_mono(objects, pips, a, b - 1);
    }
}

/// The generic pips' total never exceeds the whole cost's value.
pub proof fn lemma_generic_sum_bounds(s: Seq<Pip>, upto: int)
    requires
        0 <= upto <= s.len(),
    ensures
        0 <= generic_sum(s, upto) <= pips_value(s),
    decreases upto,
{
    crate::mana_cost::lemma_pips_value_split(s, upto);
    crate::mana_cost::lemma_pips_value_nonneg(s.skip(upto));
    lemma_generic_sum_le_prefix(s, upto);
}

proof fn lemma_generic_sum_le_prefix(s: Seq<Pip>, upto: int)
    requires
        0 <= upto <= s.len(),
    ensures
        0 <= generic_sum(s, upto) <= pips_value(s.take(upto)),
    decreases upto,
{
    if upto > 0 {
        lemma_generic_sum_le_prefix(s, upto - 1);
        crate::mana_cost::lemma_pips_value_push(s.take(upto - 1), s[upto - 1]);
        assert(s.take(upto - 1).push(s[upto - 1]) =~= s.take(upto));
        match s[upto - 1] {
            Pip::Single(u) => (),
            Pip::Hybrid(a, b) => (),
        }
    }
}

/// Pays for a spell from the battlefield's untapped lands, or reports that it
/// cannot be paid for. On success exactly the committed lands are tapped and
/// a tap event is logged for each; on failure the battlefield is untouched.
pub fn auto_tapper(battlefield: &mut Battlefield, mana_cost: ManaCostRef<'_>) -> (r: bool)
    requires
        old(battlefield).wf(),
        mana_cost.wf(),
    ensures
        final(battlefield).wf(),
        r == (solver_plan(old(battlefield).objects@, mana_cost.pips@) is Some),
        !r ==> *final(battlefield) == *old(battlefield),
        r ==> final(battlefield).players == old(battlefield).players,
        r ==> final(battlefield).objects@.len() == old(battlefield).objects@.len(),
        r ==> (forall|i: int|
            0 <= i < old(battlefield).objects@.len() ==> final(battlefield).objects@[i] == (
            if solver_plan(old(battlefield).objects@, mana_cost.pips@).unwrap().contains(i) {
                tap_obj(old(battlefield).objects@[i])
            } else {
                old(battlefield).objects@[i]
            })),
        r ==> old(battlefield).log@.is_prefix_of(final(battlefield).log@),
        r ==> final(battlefield).log@.len() == old(battlefield).log@.len() + tapped_count(
            solver_plan(old(battlefield).objects@, mana_cost.pips@).unwrap(),
            old(battlefield).objects@.len() as int,
        ),
        r ==> (forall|j: int|
            old(battlefield).log@.len() <= j < final(battlefield).log@.len()
                ==> (#[trigger] final(battlefield).log@[j]) matches Event::Tap(_)),
{
    let ghost objects0 = battlefield.objects@;
    let ghost pips0 = mana_cost.pips@;
    let n_objects = battlefield.objects.len();

    // Step 1: if there are not enough untapped lands for the cost's total
    // value, the spell definitely cannot be cast.
    let mut untapped: usize = 0;
    let mut i: usize = 0;
    while i < n_objects
        invariant
            0 <= i <= n_objects,
            *battlefield == *old(battlefield),
            n_objects == battlefield.objects@.len(),
            objects0 == battlefield.objects@,
            untapped as int == count_untapped_lands(objects0, i as int),
            untapped <= i,
        decreases n_objects - i,
    {
        let o = &battlefield.objects[i];
        if !o.tapped && o.card.card.is_land() {
            untapped = untapped + 1;
        }
        i = i + 1;
    }
    let need = mana_cost.mana_value();
    if untapped < need as usize {
        return false;
    }

    // Step 2: serve every colored pip, in the cost's listed order, from the
    // cheapest untapped source still free, preferring free sources.
    let mut committed: Vec<bool> = Vec::new();
    while committed.len() < n_objects
        invariant
            committed@.len() <= n_objects,
            forall|t: int| 0 <= t < committed@.len() ==> committed@[t] == false,
        decreases n_objects - committed@.len(),
    {
        committed.push(false);
    }
    let ghost mut gchosen: Seq<int> = Seq::<int>::empty();
    let mut extra: u128 = 0;
    let mut k: usize = 0;
    let n_pips = mana_cost.pips.len();
    while k < n_pips
        invariant
            0 <= k <= n_pips,
            *battlefield == *old(battlefield),
            old(battlefield).wf(),
            n_objects == battlefield.objects@.len(),
            objects0 == battlefield.objects@,
            pips0 == mana_cost.pips@,
            n_pips == pips0.len(),
            committed@.len() == n_objects,
            colored_plan(objects0, pips0, k as int) == Some((gchosen, extra as int)),
            forall|t: int| 0 <= t < n_objects ==> (committed@[t] <==> gchosen.contains(t)),
            forall|t: int| gchosen.contains(t) ==> 0 <= t < n_objects,
            extra as int <= 255 * (k as int),
        decreases n_pips - k,
    {
        let p = mana_cost.pips[k];
        if !matches!(p, Pip::Single(Unit::Generic { .. })) {
            match scan_source(&battlefield.objects, &committed, p, Ghost(gchosen)) {
                Some((idx, c)) => {
                    committed[idx] = true;
                    proof {
                        let oldchosen = gchosen;
                        gchosen = gchosen.push(idx as int);
                        assert forall|t: int| 0 <= t < n_objects implies (committed@[t]
                            <==> gchosen.contains(t)) by {
                            lemma_contains_push(oldchosen, idx as int, t);
                        }
                        assert forall|t: int| gchosen.contains(t) implies 0 <= t < n_objects by {
                            lemma_contains_push(oldchosen, idx as int, t);
                        }
                    }
                    extra = extra + c as u128;
                },
                None => {
                    proof {
                        assert(colored_plan(objects0, pips0, k as int + 1) is None);
                        lemma_colored_plan_none_mono(objects0, pips0, k as int + 1, n_pips as int);
                    }
                    return false;
                },
            }
        }
        k = k + 1;
    }

    // Step 3: pay the generic remainder -- the cost's generic pips plus what
    // the chosen sources demand -- from the earliest untapped lands left.
    let mut gsum: u16 = 0;
    let mut k2: usize = 0;
    while k2 < n_pips
        invariant
            0 <= k2 <= n_pips,
            pips0 == mana_cost.pips@,
            n_pips == pips0.len(),
            pips_value(pips0) <= u8::MAX,
            gsum as int == generic_sum(pips0, k2 as int),
        decreases n_pips - k2,
    {
        proof {
            lemma_generic_sum_bounds(pips0, k2 + 1);
        }
        match &mana_cost.pips[k2] {
            Pip::Single(Unit::Generic { amount }) => {
                gsum = gsum + *amount as u16;
            },
            _ => (),
        }
        k2 = k2 + 1;
    }
    let total: u128 = gsum as u128 + extra;
    let ghost mut ggens: Seq<int> = Seq::<int>::empty();
    let mut paid: u128 = 0;
    let mut j: usize = 0;
    while paid < total && j < n_objects
        invariant
            0 <= j <= n_objects,
            0 <= paid <= total,
            *battlefield == *old(battlefield),
            old(battlefield).wf(),
            n_objects == battlefield.objects@.len(),
            objects0 == battlefield.objects@,
            committed@.len() == n_objects,
            forall|t: int|
                0 <= t < n_objects ==> (committed@[t] <==> (gchosen.contains(t) || ggens.contains(
                    t,
                ))),
            forall|t: int| gchosen.contains(t) ==> 0 <= t < n_objects,
            forall|t: int| ggens.contains(t) ==> 0 <= t < j,
            match pick_generics(objects0, gchosen, total as int - paid as int, j as int) {
                None => pick_generics(objects0, gchosen, total as int, 0) is None,
                Some(rest) => pick_generics(objects0, gchosen, total as int, 0) == Some(
                    ggens + rest,
                ),
            },
        decreases n_objects - j,
    {
        proof {
            assert(!ggens.contains(j as int));
        }
        let take_it = !committed[j] && !battlefield.objects[j].tapped
            && battlefield.objects[j].card.card.is_land();
        proof {
            let n = total as int - paid as int;
            if take_it {
                assert(!gchosen.contains(j as int));
                assert(is_untapped_land(objects0[j as int]));
                match pick_generics(objects0, gchosen, n - 1, j as int + 1) {
                    None => {
                        assert(pick_generics(objects0, gchosen, n, j as int) is None);
                    },
                    Some(rest) => {
                        assert(pick_generics(objects0, gchosen, n, j as int) == Some(
                            seq![j as int] + rest,
                        ));
                        assert(ggens + (seq![j as int] + rest) =~= ggens.push(j as int) + rest);
                    },
                }
            } else {
                if gchosen.contains(j as int) || !is_untapped_land(objects0[j as int]) {
                    assert(pick_generics(objects0, gchosen, n, j as int) == pick_generics(
                        objects0,
                        gchosen,
                        n,
                        j as int + 1,
                    ));
                }
            }
        }
        if take_it {
            committed[j] = true;
            paid = paid + 1;
            proof {
                let oldgens = ggens;
                ggens = ggens.push(j as int);
                assert forall|t: int| 0 <= t < n_objects implies (committed@[t] <==> (
                gchosen.contains(t) || ggens.contains(t))) by {
                    lemma_contains_push(oldgens, j as int, t);
                }
                assert forall|t: int| ggens.contains(t) implies 0 <= t < j + 1 by {
                    lemma_contains_push(oldgens, j as int, t);
                }
            }
        }
        j = j + 1;
    }
    if paid < total {
        return false;
    }
    let ghost plan = gchosen + ggens;
    proof {
        assert(pick_generics(objects0, gchosen, total as int - paid as int, j as int) == Some(
            Seq::<int>::empty(),
        ));
        assert(ggens + Seq::<int>::empty() =~= ggens);
        assert(solver_plan(objects0, pips0) == Some(plan));
        assert forall|x: int| 0 <= x < n_objects implies (committed@[x] <==> plan.contains(x)) by {
            lemma_contains_concat(gchosen, ggens, x);
        }
    }

    // Step 4: the cost is payable; commit by tapping every chosen land and
    // logging a tap for each.
    let ghost log0 = battlefield.log@;
    let mut t: usize = 0;
    while t < n_objects
        invariant
            0 <= t <= n_objects,
            n_objects == battlefield.objects@.len(),
            objects0 == old(battlefield).objects@,
            n_objects == objects0.len(),
            committed@.len() == n_objects,
            battlefield.players == old(battlefield).players,
            old(battlefield).wf(),
            log0 == old(battlefield).log@,
            log0.is_prefix_of(battlefield.log@),
            battlefield.log@.len() == log0.len() + tapped_count(plan, t as int),
            forall|j: int|
                log0.len() <= j < battlefield.log@.len() ==> (#[trigger] battlefield.log@[j])
                    matches Event::Tap(_),
            forall|x: int| 0 <= x < n_objects ==> (committed@[x] <==> plan.contains(x)),
            forall|x: int| #![trigger objects0[x]]
                0 <= x < n_objects ==> battlefield.objects@[x] == (if x < t && plan.contains(x) {
                    tap_obj(objects0[x])
                } else {
                    objects0[x]
                }),
        decreases n_objects - t,
    {
        let ghost pre_objects = battlefield.objects@;
        if committed[t] {
            battlefield.objects[t].tapped = true;
            proof {
                assert(pre_objects[t as int] == objects0[t as int]);
                assert(battlefield.objects@[t as int] == tap_obj(objects0[t as int]));
                assert forall|x: int| #![trigger objects0[x]]
                    0 <= x < n_objects implies battlefield.objects@[x] == (if x < t + 1
                    && plan.contains(x) {
                    tap_obj(objects0[x])
                } else {
                    objects0[x]
                }) by {
                    if x != t {
                        assert(battlefield.objects@[x] == pre_objects[x]);
                    }
                }
            }
            let ghost mid_log = battlefield.log@;
            let ev = battlefield.objects[t].clone();
            battlefield.log.push(Event::Tap(ev));
            proof {
                crate::battlefield::lemma_prefix_push(mid_log, battlefield.log@.last());
                crate::battlefield::lemma_prefix_trans(log0, mid_log, battlefield.log@);
            }
        }
        t = t + 1;
    }
    proof {
        assert forall|x: int|
            0 <= x < n_objects implies (#[trigger] battlefield.objects@[x]).card.wf() by {
            assert(old(battlefield).objects@[x].card.wf());
            assert(objects0[x].card.wf());
        }
    }
    true
}

} // verus!

verus! {

/// The index of the first card in a hand whose primary name is `name`.
pub open spec fn first_name_index(hand: Seq<OwnedCard>, name: Seq<char>, upto: int) -> Option<int>
    decreases upto,
{
    if upto <= 0 {
        None
    } else {
        match first_name_index(hand, name, upto - 1) {
            Some(i) => Some(i),
            None => if hand[upto - 1].card.spec_primary_name() == Some(name) {
                Some(upto - 1)
            } else {
                None
            },
        }
    }
}

/// Whether a card is a split card one of whose face names is `name`.
pub open spec fn is_split_named(c: Card, name: Seq<char>) -> bool {
    c matches Card::Split(l, r) && (l.name@ == name || r.name@ == name)
}

/// The index of the first split card in a hand one of whose faces is `name`.
pub open spec fn first_split_index(hand: Seq<OwnedCard>, name: Seq<char>, upto: int) -> Option<int>
    decreases upto,
{
    if upto <= 0 {
        None
    } else {
        match first_split_index(hand, name, upto - 1) {
            Some(i) => Some(i),
            None => if is_split_named(hand[upto - 1].card, name) {
                Some(upto - 1)
            } else {
                None
            },
        }
    }
}

/// Whether the card's primary name is exactly `name`.
pub fn card_has_primary_name(card: &Card, name: &String) -> (r: bool)
    ensures
        r == (card.spec_primary_name() == Some(name@)),
{
    match card {
        Card::Single(face) => face.name == *name,
        Card::Adventure { primary, .. } => primary.name == *name,
        Card::Omen { primary, .. } => primary.name == *name,
        Card::Split(_, _) => false,
    }
}

fn card_is_split_named(card: &Card, name: &String) -> (r: bool)
    ensures
        r == is_split_named(*card, name@),
{
    match card {
        Card::Split(left, right) => left.name == *name || right.name == *name,
        _ => false,
    }
}

/// Takes the first card with the given primary name out of the casting
/// player's hand, if one is there; nothing else changes.
pub fn find_by_name(battlefield: &mut Battlefield, name: &String) -> (r: Option<OwnedCard>)
    requires
        old(battlefield).wf(),
    ensures
        final(battlefield).wf(),
        final(battlefield).players@.len() == 2,
        final(battlefield).objects == old(battlefield).objects,
        final(battlefield).log == old(battlefield).log,
        final(battlefield).p1() == old(battlefield).p1(),
        final(battlefield).p0().id == old(battlefield).p0().id,
        final(battlefield).p0().life_total == old(battlefield).p0().life_total,
        final(battlefield).p0().zones.library == old(battlefield).p0().zones.library,
        final(battlefield).p0().zones.graveyard == old(battlefield).p0().zones.graveyard,
        final(battlefield).p0().zones.exile == old(battlefield).p0().zones.exile,
        match first_name_index(
            old(battlefield).p0().zones.hand@,
            name@,
            old(battlefield).p0().zones.hand@.len() as int,
        ) {
            Some(i) => 0 <= i < old(battlefield).p0().zones.hand@.len() && r == Some(
                old(battlefield).p0().zones.hand@[i],
            ) && final(battlefield).p0().zones.hand@
                == old(battlefield).p0().zones.hand@.remove(i) && r.unwrap().wf(),
            None => r is None && *final(battlefield) == *old(battlefield),
        },
{
    let ghost hand0 = battlefield.players@[0].zones.hand@;
    let n = battlefield.players[0].zones.hand.len();
    let mut i: usize = 0;
    while i < n
        invariant
            0 <= i <= n,
            *battlefield == *old(battlefield),
            old(battlefield).wf(),
            hand0 == battlefield.players@[0].zones.hand@,
            n == hand0.len(),
            first_name_index(hand0, name@, i as int) is None,
        decreases n - i,
    {
        if card_has_primary_name(&battlefield.players[0].zones.hand[i].card, name) {
            proof {
                assert(first_name_index(hand0, name@, i as int + 1) == Some(i as int));
                lemma_first_name_index_stable(hand0, name@, i as int + 1, hand0.len() as int);
            }
            let card = battlefield.players[0].zones.hand.remove(i);
            return Some(card);
        }
        i = i + 1;
    }
    None
}

/// A first find stays the first find as the scan widens.
pub proof fn lemma_first_name_index_stable(hand: Seq<OwnedCard>, name: Seq<char>, a: int, b: int)
    requires
        a <= b,
        first_name_index(hand, name, a) is Some,
    ensures
        first_name_index(hand, name, b) == first_name_index(hand, name, a),
    decreases b,
{
    if a < b && b > 0 {
        lemma_first_name_index_stable(hand, name, a, b - 1);
    }
}

proof fn lemma_first_split_index_stable(hand: Seq<OwnedCard>, name: Seq<char>, a: int, b: int)
    requires
        a <= b,
        first_split_index(hand, name, a) is Some,
    ensures
        first_split_index(hand, name, b) == first_split_index(hand, name, a),
    decreases b,
{
    if a < b && b > 0 {
        lemma_first_split_index_stable(hand, name, a, b - 1);
    }
}

/// A witness with the name guarantees that the scan finds something.
pub proof fn lemma_first_name_index_finds(
    hand: Seq<OwnedCard>,
    name: Seq<char>,
    w: int,
    upto: int,
)
    requires
        0 <= w < upto,
        hand[w].card.spec_primary_name() == Some(name),
    ensures
        first_name_index(hand, name, upto) is Some,
    decreases upto,
{
    if w < upto - 1 {
        lemma_first_name_index_finds(hand, name, w, upto - 1);
    }
}

/// Takes the first split card with the given face name out of the casting
/// player's hand, if one is there; nothing else changes.
pub fn find_split_card(battlefield: &mut Battlefield, name: &String) -> (r: Option<OwnedCard>)
    requires
        old(battlefield).wf(),
    ensures
        final(battlefield).wf(),
        final(battlefield).players@.len() == 2,
        final(battlefield).objects == old(battlefield).objects,
        final(battlefield).log == old(battlefield).log,
        final(battlefield).p1() == old(battlefield).p1(),
        final(battlefield).p0().id == old(battlefield).p0().id,
        final(battlefield).p0().life_total == old(battlefield).p0().life_total,
        final(battlefield).p0().zones.library == old(battlefield).p0().zones.library,
        final(battlefield).p0().zones.graveyard == old(battlefield).p0().zones.graveyard,
        final(battlefield).p0().zones.exile == old(battlefield).p0().zones.exile,
        match first_split_index(
            old(battlefield).p0().zones.hand@,
            name@,
            old(battlefield).p0().zones.hand@.len() as int,
        ) {
            Some(i) => 0 <= i < old(battlefield).p0().zones.hand@.len() && r == Some(
                old(battlefield).p0().zones.hand@[i],
            ) && final(battlefield).p0().zones.hand@
                == old(battlefield).p0().zones.hand@.remove(i) && r.unwrap().wf(),
            None => r is None && *final(battlefield) == *old(battlefield),
        },
{
    let ghost hand0 = battlefield.players@[0].zones.hand@;
    let n = battlefield.players[0].zones.hand.len();
    let mut i: usize = 0;
    while i < n
        invariant
            0 <= i <= n,
            *battlefield == *old(battlefield),
            old(battlefield).wf(),
            hand0 == battlefield.players@[0].zones.hand@,
            n == hand0.len(),
            first_split_index(hand0, name@, i as int) is None,
        decreases n - i,
    {
        if card_is_split_named(&battlefield.players[0].zones.hand[i].card, name) {
            proof {
                assert(first_split_index(hand0, name@, i as int + 1) == Some(i as int));
                lemma_first_split_index_stable(hand0, name@, i as int + 1, hand0.len() as int);
            }
            let card = battlefield.players[0].zones.hand.remove(i);
            return Some(card);
        }
        i = i + 1;
    }
    None
}

} // verus!

verus! {

/// The names of the spells the deck's game plan casts, most impactful first.
pub fn claim_name() -> (r: String)
    ensures
        r@ == "Duskmourn's Claim"@,
{
    "Duskmourn's Claim".to_owned()
}

pub fn appraiser_name() -> (r: String)
    ensures
        r@ == "Geological Appraiser"@,
{
    "Geological Appraiser".to_owned()
}

pub fn carnosaur_name() -> (r: String)
    ensures
        r@ == "Trumpeting Carnosaur"@,
{
    "Trumpeting Carnosaur".to_owned()
}

pub fn cease_name() -> (r: String)
    ensures
        r@ == "Cease"@,
{
    "Cease".to_owned()
}

pub fn sauna_name() -> (r: String)
    ensures
        r@ == "Steaming Sauna"@,
{
    "Steaming Sauna".to_owned()
}

pub fn yard_name() -> (r: String)
    ensures
        r@ == "Shattered Yard"@,
{
    "Shattered Yard".to_owned()
}

/// Builds the cost `{n}` followed by the given colored pips.
pub(crate) fn generic_plus(n: u8, colored: Vec<Pip>) -> (r: Vec<Pip>)
    requires
        pips_value(colored@) + n as int <= u8::MAX,
    ensures
        r@ == seq![Pip::Single(Unit::Generic { amount: n })] + colored@,
        pips_value(r@) == n as int + pips_value(colored@),
        pips_value(r@) <= u8::MAX,
{
    let mut r: Vec<Pip> = Vec::new();
    r.push(Pip::Single(Unit::Generic { amount: n }));
    let mut colored = colored;
    let ghost colored0 = colored@;
    let mut i: usize = 0;
    let ncol = colored.len();
    while i < ncol
        invariant
            0 <= i <= ncol,
            ncol == colored@.len(),
            colored@ == colored0,
            r@ == seq![Pip::Single(Unit::Generic { amount: n })] + colored0.take(i as int),
        decreases ncol - i,
    {
        r.push(colored[i]);
        proof {
            assert(r@ =~= seq![Pip::Single(Unit::Generic { amount: n })] + colored0.take(
                i as int + 1,
            ));
        }
        i = i + 1;
    }
    proof {
        assert(colored0.take(colored0.len() as int) =~= colored0);
        assert(r@ == seq![Pip::Single(Unit::Generic { amount: n })] + colored0);
        lemma_value_of_generic_plus(n, colored0);
    }
    r
}

proof fn lemma_value_of_generic_plus(n: u8, colored: Seq<Pip>)
    ensures
        pips_value(seq![Pip::Single(Unit::Generic { amount: n })] + colored) == n as int
            + pips_value(colored),
    decreases colored.len(),
{
    let head = Pip::Single(Unit::Generic { amount: n });
    if colored.len() == 0 {
        assert(seq![head] + colored =~= seq![head]);
        crate::mana_cost::lemma_pips_value_one(head);
    } else {
        lemma_value_of_generic_plus(n, colored.drop_last());
        crate::mana_cost::lemma_pips_value_push(
            seq![head] + colored.drop_last(),
            colored.last(),
        );
        assert((seq![head] + colored.drop_last()).push(colored.last()) =~= seq![head] + colored);
        crate::mana_cost::lemma_pips_value_push(colored.drop_last(), colored.last());
        assert(colored.drop_last().push(colored.last()) =~= colored);
    }
}

/// How a spell is looked up in hand: by primary name, or by either face name
/// of a split card.
pub enum Finder {
    Single(String),
    Split(String),
}

impl Finder {
    pub open spec fn found_index(self, hand: Seq<OwnedCard>) -> Option<int> {
        match self {
            Finder::Single(name) => first_name_index(hand, name@, hand.len() as int),
            Finder::Split(name) => first_split_index(hand, name@, hand.len() as int),
        }
    }

    /// Takes the first matching card out of the casting player's hand.
    pub fn find(&self, battlefield: &mut Battlefield) -> (r: Option<OwnedCard>)
        requires
            old(battlefield).wf(),
        ensures
            final(battlefield).wf(),
            final(battlefield).players@.len() == 2,
            final(battlefield).objects == old(battlefield).objects,
            final(battlefield).log == old(battlefield).log,
            final(battlefield).p1() == old(battlefield).p1(),
            final(battlefield).p0().id == old(battlefield).p0().id,
            final(battlefield).p0().life_total == old(battlefield).p0().life_total,
            final(battlefield).p0().zones.library == old(battlefield).p0().zones.library,
            final(battlefield).p0().zones.graveyard == old(battlefield).p0().zones.graveyard,
            final(battlefield).p0().zones.exile == old(battlefield).p0().zones.exile,
            match self.found_index(old(battlefield).p0().zones.hand@) {
                Some(i) => 0 <= i < old(battlefield).p0().zones.hand@.len() && r == Some(
                    old(battlefield).p0().zones.hand@[i],
                ) && final(battlefield).p0().zones.hand@
                    == old(battlefield).p0().zones.hand@.remove(i) && r.unwrap().wf(),
                None => r is None && *final(battlefield) == *old(battlefield),
            },
    {
        match self {
            Self::Single(name) => find_by_name(battlefield, name),
            Self::Split(name) => find_split_card(battlefield, name),
        }
    }
}

/// A casting pass for one spell is over: either no copy of it remains
/// findable in the hand, or the solver cannot pay its cost on the battlefield
/// as it stands.
pub open spec fn spell_exhausted(b: Battlefield, finder: Finder, pips: Seq<Pip>) -> bool {
    finder.found_index(b.p0().zones.hand@) is None || solver_plan(b.objects@, pips) is None
}

/// `spell_exhausted` for a split card named at the spec level.
pub open spec fn split_spell_exhausted(b: Battlefield, name: Seq<char>, pips: Seq<Pip>) -> bool {
    first_split_index(b.p0().zones.hand@, name, b.p0().zones.hand@.len() as int) is None
        || solver_plan(b.objects@, pips) is None
}

/// Repeatedly finds one named spell in hand and casts it while the solver can
/// pay for it; stops when none is left or at the first unpayable copy, which
/// goes back into the hand.
fn cast_all_of(battlefield: &mut Battlefield, finder: &Finder, cost: ManaCostRef<'_>)
    requires
        old(battlefield).wf(),
        cost.wf(),
    ensures
        final(battlefield).wf(),
        final(battlefield).players@.len() == 2,
        final(battlefield).p0().id == old(battlefield).p0().id,
        final(battlefield).p1().id == old(battlefield).p1().id,
        final(battlefield).p0().zones.library@.len() <= old(battlefield).p0().zones.library@.len(),
        final(battlefield).p1().zones.library@.len() <= old(battlefield).p1().zones.library@.len(),
        final(battlefield).p0().zones.hand@.len() + final(battlefield).p0().zones.library@.len()
            <= old(battlefield).p0().zones.hand@.len() + old(
            battlefield,
        ).p0().zones.library@.len(),
        final(battlefield).p1().zones.hand@.len() + final(battlefield).p1().zones.library@.len()
            <= old(battlefield).p1().zones.hand@.len() + old(
            battlefield,
        ).p1().zones.library@.len(),
        final(battlefield).objects@.len() >= old(battlefield).objects@.len(),
        forall|i: int|
            0 <= i < old(battlefield).objects@.len() ==> (#[trigger] final(battlefield).objects@[i]).card
                == old(battlefield).objects@[i].card,
        old(battlefield).log@.is_prefix_of(final(battlefield).log@),
        crate::battlefield::p0_card_count(*final(battlefield)) == crate::battlefield::p0_card_count(
            *old(battlefield),
        ),
        crate::battlefield::p1_card_count(*final(battlefield)) == crate::battlefield::p1_card_count(
            *old(battlefield),
        ),
        spell_exhausted(*final(battlefield), *finder, cost.pips@),
    decreases old(battlefield).p0().zones.hand@.len() + old(battlefield).p0().zones.library@.len(),
{
    proof {
        crate::battlefield::lemma_prefix_refl(old(battlefield).log@);
    }
    loop
        invariant
            battlefield.wf(),
            cost.wf(),
            battlefield.players@.len() == 2,
            battlefield.p0().id == old(battlefield).p0().id,
            battlefield.p1().id == old(battlefield).p1().id,
            battlefield.p0().zones.library@.len() <= old(battlefield).p0().zones.library@.len(),
            battlefield.p1().zones.library@.len() <= old(battlefield).p1().zones.library@.len(),
            battlefield.p0().zones.hand@.len() + battlefield.p0().zones.library@.len() <= old(
                battlefield,
            ).p0().zones.hand@.len() + old(battlefield).p0().zones.library@.len(),
            battlefield.p1().zones.hand@.len() + battlefield.p1().zones.library@.len() <= old(
                battlefield,
            ).p1().zones.hand@.len() + old(battlefield).p1().zones.library@.len(),
            battlefield.objects@.len() >= old(battlefield).objects@.len(),
            forall|i: int|
                0 <= i < old(battlefield).objects@.len() ==> (#[trigger] battlefield.objects@[i]).card
                    == old(battlefield).objects@[i].card,
            old(battlefield).log@.is_prefix_of(battlefield.log@),
            crate::battlefield::p0_card_count(*battlefield) == crate::battlefield::p0_card_count(
                *old(battlefield),
            ),
            crate::battlefield::p1_card_count(*battlefield) == crate::battlefield::p1_card_count(
                *old(battlefield),
            ),
        ensures
            battlefield.wf(),
            battlefield.players@.len() == 2,
            battlefield.p0().id == old(battlefield).p0().id,
            battlefield.p1().id == old(battlefield).p1().id,
            battlefield.p0().zones.library@.len() <= old(battlefield).p0().zones.library@.len(),
            battlefield.p1().zones.library@.len() <= old(battlefield).p1().zones.library@.len(),
            battlefield.p0().zones.hand@.len() + battlefield.p0().zones.library@.len() <= old(
                battlefield,
            ).p0().zones.hand@.len() + old(battlefield).p0().zones.library@.len(),
            battlefield.p1().zones.hand@.len() + battlefield.p1().zones.library@.len() <= old(
                battlefield,
            ).p1().zones.hand@.len() + old(battlefield).p1().zones.library@.len(),
            battlefield.objects@.len() >= old(battlefield).objects@.len(),
            forall|i: int|
                0 <= i < old(battlefield).objects@.len() ==> (#[trigger] battlefield.objects@[i]).card
                    == old(battlefield).objects@[i].card,
            old(battlefield).log@.is_prefix_of(battlefield.log@),
            crate::battlefield::p0_card_count(*battlefield) == crate::battlefield::p0_card_count(
                *old(battlefield),
            ),
            crate::battlefield::p1_card_count(*battlefield) == crate::battlefield::p1_card_count(
                *old(battlefield),
            ),
            spell_exhausted(*battlefield, *finder, cost.pips@),
        decreases battlefield.p0().zones.hand@.len() + battlefield.p0().zones.library@.len(),
    {
        let ghost log_a = battlefield.log@;
        let card = finder.find(battlefield);
        match card {
            Some(card) => {
                let ghost log_b = battlefield.log@;
                if auto_tapper(battlefield, cost) {
                    let ghost log_c = battlefield.log@;
                    let ghost objects_c = battlefield.objects@;
                    battlefield.cast_spell(card);
                    proof {
                        crate::battlefield::lemma_prefix_trans(log_b, log_c, battlefield.log@);
                        crate::battlefield::lemma_prefix_trans(
                            old(battlefield).log@,
                            log_b,
                            battlefield.log@,
                        );
                        assert(objects_c =~= battlefield.objects@.subrange(
                            0,
                            objects_c.len() as int,
                        ));
                        assert forall|i: int|
                            0 <= i < old(battlefield).objects@.len() implies (
                        #[trigger] battlefield.objects@[i]).card == old(
                            battlefield,
                        ).objects@[i].card by {
                            assert(battlefield.objects@[i] == objects_c[i]);
                        }
                    }
                } else {
                    // The copy cannot be paid for: it goes back into the hand
                    // rather than leaving the game.
                    battlefield.players[0].zones.hand.push(card);
                    proof {
                        assert(solver_plan(battlefield.objects@, cost.pips@) is None);
                    }
                    break;
                }
            },
            None => {
                break;
            },
        }
    }
}

} // verus!

verus! {

pub(crate) fn one_pip(p: Pip) -> (r: Vec<Pip>)
    ensures
        r@ == seq![p],
        pips_value(r@) == pip_value(p),
{
    let mut r: Vec<Pip> = Vec::new();
    r.push(p);
    proof {
        assert(r@ =~= seq![p]);
        crate::mana_cost::lemma_pips_value_one(p);
    }
    r
}

pub(crate) fn two_pips(p: Pip, q: Pip) -> (r: Vec<Pip>)
    ensures
        r@ == seq![p, q],
        pips_value(r@) == pip_value(p) + pip_value(q),
{
    let mut r: Vec<Pip> = Vec::new();
    r.push(p);
    r.push(q);
    proof {
        assert(r@ =~= seq![p, q]);
        crate::mana_cost::lemma_pips_value_two(p, q);
    }
    r
}

/// Casts what the hand and the mana allow, in the deck's fixed priority
/// order, repeating each spell until it is out of copies or out of mana.
pub fn cast_spells(battlefield: &mut Battlefield)
    requires
        old(battlefield).wf(),
    ensures
        final(battlefield).wf(),
        final(battlefield).players@.len() == 2,
        final(battlefield).p0().id == old(battlefield).p0().id,
        final(battlefield).p1().id == old(battlefield).p1().id,
        final(battlefield).p0().zones.library@.len() <= old(battlefield).p0().zones.library@.len(),
        final(battlefield).p1().zones.library@.len() <= old(battlefield).p1().zones.library@.len(),
        final(battlefield).p0().zones.hand@.len() + final(battlefield).p0().zones.library@.len()
            <= old(battlefield).p0().zones.hand@.len() + old(
            battlefield,
        ).p0().zones.library@.len(),
        final(battlefield).p1().zones.hand@.len() + final(battlefield).p1().zones.library@.len()
            <= old(battlefield).p1().zones.hand@.len() + old(
            battlefield,
        ).p1().zones.library@.len(),
        old(battlefield).log@.is_prefix_of(final(battlefield).log@),
        final(battlefield).objects@.len() >= old(battlefield).objects@.len(),
        forall|i: int|
            0 <= i < old(battlefield).objects@.len() ==> (#[trigger] final(battlefield).objects@[i]).card
                == old(battlefield).objects@[i].card,
        crate::battlefield::p0_card_count(*final(battlefield)) == crate::battlefield::p0_card_count(
            *old(battlefield),
        ),
        crate::battlefield::p1_card_count(*final(battlefield)) == crate::battlefield::p1_card_count(
            *old(battlefield),
        ),
        split_spell_exhausted(
            *final(battlefield),
            "Shattered Yard"@,
            seq![Pip::Single(Unit::Generic { amount: 4 }), Pip::Single(Unit::Red)],
        ),
{
    let claim_cost = generic_plus(2, one_pip(Pip::Single(Unit::Black)));
    let claim = Finder::Single(claim_name());
    cast_all_of(battlefield, &claim, ManaCostRef { pips: claim_cost.as_slice() });

    let ghost log_a = battlefield.log@;
    let appraiser_cost = generic_plus(
        2,
        two_pips(Pip::Single(Unit::Red), Pip::Single(Unit::Red)),
    );
    let appraiser = Finder::Single(appraiser_name());
    cast_all_of(battlefield, &appraiser, ManaCostRef { pips: appraiser_cost.as_slice() });

    let ghost log_b = battlefield.log@;
    let carnosaur_cost = generic_plus(
        4,
        two_pips(Pip::Single(Unit::Red), Pip::Single(Unit::Red)),
    );
    let carnosaur = Finder::Single(carnosaur_name());
    cast_all_of(battlefield, &carnosaur, ManaCostRef { pips: carnosaur_cost.as_slice() });

    let ghost log_c = battlefield.log@;
    let cease_cost = generic_plus(1, one_pip(Pip::Hybrid(Unit::Black, Unit::Green)));
    let cease = Finder::Split(cease_name());
    cast_all_of(battlefield, &cease, ManaCostRef { pips: cease_cost.as_slice() });

    let ghost log_d = battlefield.log@;
    let sauna_cost = generic_plus(
        3,
        two_pips(Pip::Single(Unit::Blue), Pip::Single(Unit::Blue)),
    );
    let sauna = Finder::Split(sauna_name());
    cast_all_of(battlefield, &sauna, ManaCostRef { pips: sauna_cost.as_slice() });

    let yard_cost = generic_plus(4, one_pip(Pip::Single(Unit::Red)));
    let yard = Finder::Split(yard_name());
    let ghost log_e = battlefield.log@;
    cast_all_of(battlefield, &yard, ManaCostRef { pips: yard_cost.as_slice() });
    proof {
        assert(yard_cost@ =~= seq![Pip::Single(Unit::Generic { amount: 4 }), Pip::Single(
            Unit::Red,
        )]);
        crate::battlefield::lemma_prefix_trans(log_a, log_b, log_c);
        crate::battlefield::lemma_prefix_trans(log_a, log_c, log_d);
        crate::battlefield::lemma_prefix_trans(log_a, log_d, log_e);
        crate::battlefield::lemma_prefix_trans(log_a, log_e, battlefield.log@);
        crate::battlefield::lemma_prefix_trans(old(battlefield).log@, log_a, battlefield.log@);
    }
}

} // verus!

verus! {

/// Properties of the generic step whenever it succeeds: it hands back exactly
/// the asked number of positions, each a distinct (strictly increasing),
/// in-range, untapped, uncommitted land.
pub proof fn lemma_pick_generics_props(
    objects: Seq<InPlayObject>,
    committed: Seq<int>,
    n: int,
    i: int,
)
    requires
        pick_generics(objects, committed, n, i) is Some,
    ensures
        pick_generics(objects, committed, n, i).unwrap().len() == if n >= 0 {
            n
        } else {
            0
        },
        forall|a: int|
            0 <= a < pick_generics(objects, committed, n, i).unwrap().len() ==> i <= #[trigger] (
            pick_generics(objects, committed, n, i).unwrap()[a]) < objects.len()
                && is_untapped_land(
                objects[pick_generics(objects, committed, n, i).unwrap()[a]],
            ) && !committed.contains(pick_generics(objects, committed, n, i).unwrap()[a]),
        forall|a: int, b: int|
            0 <= a < b < pick_generics(objects, committed, n, i).unwrap().len()
                ==> #[trigger] (pick_generics(objects, committed, n, i).unwrap()[a])
                < #[trigger] (pick_generics(objects, committed, n, i).unwrap()[b]),
    decreases objects.len() - i,
{
    let g = pick_generics(objects, committed, n, i).unwrap();
    if n <= 0 {
    } else if i >= objects.len() || i < 0 {
    } else if !committed.contains(i) && is_untapped_land(objects[i]) {
        lemma_pick_generics_props(objects, committed, n - 1, i + 1);
        let rest = pick_generics(objects, committed, n - 1, i + 1).unwrap();
        assert(g =~= seq![i] + rest);
        assert(g[0] == i);
        assert(forall|a: int| 1 <= a < g.len() ==> g[a] == rest[a - 1]);
    } else {
        lemma_pick_generics_props(objects, committed, n, i + 1);
    }
}

/// While the cost names no colored pip, the colored step commits nothing.
proof fn lemma_colored_plan_all_generic(objects: Seq<InPlayObject>, pips: Seq<Pip>, upto: int)
    requires
        forall|k: int| 0 <= k < upto ==> pip_is_generic(#[trigger] pips[k]),
    ensures
        colored_plan(objects, pips, upto) == Some((Seq::<int>::empty(), 0int)),
    decreases upto,
{
    if upto > 0 {
        lemma_colored_plan_all_generic(objects, pips, upto - 1);
    }
}

/// On an all-generic cost the generic pips make up the whole mana value.
proof fn lemma_generic_sum_all(s: Seq<Pip>, upto: int)
    requires
        0 <= upto <= s.len(),
        forall|k: int| 0 <= k < upto ==> pip_is_generic(#[trigger] s[k]),
    ensures
        generic_sum(s, upto) == pips_value(s.take(upto)),
    decreases upto,
{
    if upto > 0 {
        lemma_generic_sum_all(s, upto - 1);
        crate::mana_cost::lemma_pips_value_push(s.take(upto - 1), s[upto - 1]);
        assert(s.take(upto - 1).push(s[upto - 1]) =~= s.take(upto));
        assert(pip_is_generic(s[upto - 1]));
    }
}

/// Enough untapped lands from position `i` on: the generic step succeeds.
proof fn lemma_pick_generics_available(objects: Seq<InPlayObject>, n: int, i: int)
    requires
        0 <= i <= objects.len(),
        0 <= n,
        n <= count_untapped_lands(objects, objects.len() as int) - count_untapped_lands(
            objects,
            i,
        ),
    ensures
        pick_generics(objects, Seq::<int>::empty(), n, i) is Some,
    decreases objects.len() - i,
{
    if n > 0 {
        lemma_count_untapped_mono(objects, i, objects.len() as int);
        if i < objects.len() {
            assert(count_untapped_lands(objects, i + 1) == count_untapped_lands(objects, i) + if
            is_untapped_land(objects[i]) {
                1int
            } else {
                0int
            });
            if is_untapped_land(objects[i]) {
                lemma_pick_generics_available(objects, n - 1, i + 1);
            } else {
                lemma_pick_generics_available(objects, n, i + 1);
            }
        }
    }
}

/// Counting over a longer prefix never counts less.
proof fn lemma_count_untapped_mono(objects: Seq<InPlayObject>, a: int, b: int)
    requires
        a <= b,
    ensures
        count_untapped_lands(objects, a) <= count_untapped_lands(objects, b),
    decreases b,
{
    if a < b && b > 0 {
        lemma_count_untapped_mono(objects, a, b - 1);
    }
}

/// For a cost with no colored requirement, payable because at least its total
/// value in untapped lands is available, the solver succeeds and commits
/// exactly that many distinct untapped lands -- every other object keeps its
/// state, and exactly that many tap events are logged.
pub proof fn lemma_generic_cost_taps_exactly(objects: Seq<InPlayObject>, pips: Seq<Pip>)
    requires
        forall|k: int| 0 <= k < pips.len() ==> pip_is_generic(#[trigger] pips[k]),
        pips_value(pips) <= count_untapped_lands(objects, objects.len() as int),
    ensures
        solver_plan(objects, pips) is Some,
        solver_plan(objects, pips).unwrap().len() == pips_value(pips),
        tapped_count(solver_plan(objects, pips).unwrap(), objects.len() as int) == pips_value(
            pips,
        ),
        forall|a: int|
            0 <= a < solver_plan(objects, pips).unwrap().len() ==> 0 <= #[trigger] (solver_plan(
                objects,
                pips,
            ).unwrap()[a]) < objects.len() && is_untapped_land(
                objects[solver_plan(objects, pips).unwrap()[a]],
            ),
        forall|a: int, b: int|
            0 <= a < b < solver_plan(objects, pips).unwrap().len() ==> #[trigger] (solver_plan(
                objects,
                pips,
            ).unwrap()[a]) != #[trigger] (solver_plan(objects, pips).unwrap()[b]),
{
    lemma_colored_plan_all_generic(objects, pips, pips.len() as int);
    lemma_generic_sum_all(pips, pips.len() as int);
    assert(pips.take(pips.len() as int) =~= pips);
    crate::mana_cost::lemma_pips_value_nonneg(pips);
    let n = generic_sum(pips, pips.len() as int);
    lemma_pick_generics_available(objects, n, 0);
    lemma_pick_generics_props(objects, Seq::<int>::empty(), n, 0);
    let gens = pick_generics(objects, Seq::<int>::empty(), n, 0).unwrap();
    assert(Seq::<int>::empty() + gens =~= gens);
    assert(solver_plan(objects, pips) == Some(gens));
    lemma_tapped_count_of_distinct(gens, objects.len() as int);
}

/// An ability that offers only colorless mana cannot serve a colored demand.
pub open spec fn ability_only_colorless(a: Ability) -> bool {
    match a {
        Ability::Mana(ma) => match ma.produce {
            crate::abilities::ManaProduction::Single { possible } => forall|j: int|
                0 <= j < possible@.len() ==> possible@[j] == Unit::Colorless,
        },
        _ => true,
    }
}

/// A land whose every mana ability produces only colorless mana.
pub open spec fn produces_only_colorless(o: InPlayObject) -> bool {
    match o.card.card {
        Card::Single(face) => forall|i: int|
            0 <= i < face.abilities@.len() ==> ability_only_colorless(#[trigger] face.abilities@[i]),
        _ => true,
    }
}

proof fn lemma_min_match_cost_colorless(s: Seq<Ability>, u: Unit, upto: int)
    requires
        u != Unit::Colorless,
        0 <= upto <= s.len(),
        forall|i: int| 0 <= i < s.len() ==> ability_only_colorless(#[trigger] s[i]),
    ensures
        min_match_cost(s, u, upto) is None,
    decreases upto,
{
    if upto > 0 {
        lemma_min_match_cost_colorless(s, u, upto - 1);
        match s[upto - 1] {
            Ability::Mana(ma) => {
                match ma.produce {
                    crate::abilities::ManaProduction::Single { possible } => {
                        if possible@.contains(u) {
                            let j = choose|j: int| 0 <= j < possible@.len() && possible@[j] == u;
                            assert(ability_only_colorless(s[upto - 1]));
                            assert(false);
                        }
                    },
                }
            },
            _ => (),
        }
    }
}

proof fn lemma_pick_source_colorless(
    objects: Seq<InPlayObject>,
    committed: Seq<int>,
    p: Pip,
    upto: int,
)
    requires
        pip_unit(p) != Unit::Colorless,
        0 <= upto <= objects.len(),
        forall|i: int|
            0 <= i < objects.len() ==> produces_only_colorless(#[trigger] objects[i]),
    ensures
        pick_source(objects, committed, p, upto) is None,
    decreases upto,
{
    if upto > 0 {
        lemma_pick_source_colorless(objects, committed, p, upto - 1);
        match objects[upto - 1].card.card {
            Card::Single(face) => {
                lemma_min_match_cost_colorless(
                    face.abilities@,
                    pip_unit(p),
                    face.abilities@.len() as int,
                );
            },
            _ => (),
        }
    }
}

/// With only colorless-producing lands on the battlefield, a cost holding one
/// colored pip is never payable, however many lands there are.
pub proof fn lemma_colored_pip_needs_colored_source(
    objects: Seq<InPlayObject>,
    pips: Seq<Pip>,
    k: int,
)
    requires
        0 <= k < pips.len(),
        !pip_is_generic(pips[k]),
        pip_unit(pips[k]) != Unit::Colorless,
        forall|i: int|
            0 <= i < objects.len() ==> produces_only_colorless(#[trigger] objects[i]),
    ensures
        solver_plan(objects, pips) is None,
{
    lemma_colored_plan_fails_at(objects, pips, k);
    lemma_colored_plan_none_mono(objects, pips, k + 1, pips.len() as int);
}

proof fn lemma_colored_plan_fails_at(objects: Seq<InPlayObject>, pips: Seq<Pip>, k: int)
    requires
        0 <= k < pips.len(),
        !pip_is_generic(pips[k]),
        pip_unit(pips[k]) != Unit::Colorless,
        forall|i: int|
            0 <= i < objects.len() ==> produces_only_colorless(#[trigger] objects[i]),
    ensures
        colored_plan(objects, pips, k + 1) is None,
{
    match colored_plan(objects, pips, k) {
        None => {
            lemma_colored_plan_none_mono(objects, pips, k, k + 1);
        },
        Some((chosen, extra)) => {
            lemma_pick_source_colorless(objects, chosen, pips[k], objects.len() as int);
        },
    }
}

/// Whenever the solver succeeds, the taps it commits are exactly one source
/// for each colored pip plus the cost's generic requirement plus the extra
/// generic mana the chosen colored sources demand for their own activation.
pub proof fn lemma_tap_count(objects: Seq<InPlayObject>, pips: Seq<Pip>)
    requires
        solver_plan(objects, pips) is Some,
    ensures
        colored_plan(objects, pips, pips.len() as int) is Some,
        ({
            let (chosen, extra) = colored_plan(objects, pips, pips.len() as int).unwrap();
            &&& extra >= 0
            &&& chosen.len() == colored_count(pips, pips.len() as int)
            &&& solver_plan(objects, pips).unwrap().len() == colored_count(
                pips,
                pips.len() as int,
            ) + generic_sum(pips, pips.len() as int) + extra
        }),
{
    let (chosen, extra) = colored_plan(objects, pips, pips.len() as int).unwrap();
    lemma_colored_plan_counts(objects, pips, pips.len() as int);
    let n = generic_sum(pips, pips.len() as int) + extra;
    lemma_generic_sum_nonneg(pips, pips.len() as int);
    lemma_pick_generics_props(objects, chosen, n, 0);
    let gens = pick_generics(objects, chosen, n, 0).unwrap();
    assert(solver_plan(objects, pips).unwrap() =~= chosen + gens);
}

proof fn lemma_generic_sum_nonneg(s: Seq<Pip>, upto: int)
    ensures
        generic_sum(s, upto) >= 0,
    decreases upto,
{
    if upto > 0 {
        lemma_generic_sum_nonneg(s, upto - 1);
    }
}

/// The colored step commits one source per colored pip, at a nonnegative
/// total extra cost.
proof fn lemma_colored_plan_counts(objects: Seq<InPlayObject>, pips: Seq<Pip>, upto: int)
    requires
        colored_plan(objects, pips, upto) is Some,
    ensures
        ({
            let (chosen, extra) = colored_plan(objects, pips, upto).unwrap();
            chosen.len() == colored_count(pips, upto) && extra >= 0
        }),
    decreases upto,
{
    if upto > 0 {
        lemma_colored_plan_counts(objects, pips, upto - 1);
        let (chosen0, extra0) = colored_plan(objects, pips, upto - 1).unwrap();
        if !pip_is_generic(pips[upto - 1]) {
            lemma_pick_source_cost_nonneg(objects, chosen0, pips[upto - 1], objects.len() as int);
        }
    }
}

proof fn lemma_pick_source_cost_nonneg(
    objects: Seq<InPlayObject>,
    committed: Seq<int>,
    p: Pip,
    upto: int,
)
    requires
        pick_source(objects, committed, p, upto) is Some,
    ensures
        pick_source(objects, committed, p, upto).unwrap().1 >= 0,
    decreases upto,
{
    if upto > 0 {
        match pick_source(objects, committed, p, upto - 1) {
            Some(_) => {
                lemma_pick_source_cost_nonneg(objects, committed, p, upto - 1);
            },
            None => (),
        }
        let i = upto - 1;
        if !committed.contains(i) && is_untapped_land(objects[i]) {
            match produce_cost(objects[i], p) {
                Some(c) => {
                    lemma_min_match_cost_nonneg(objects[i], p);
                },
                None => (),
            }
        }
    }
}

proof fn lemma_min_match_cost_nonneg(o: InPlayObject, p: Pip)
    ensures
        match produce_cost(o, p) {
            Some(c) => c >= 0,
            None => true,
        },
{
    match o.card.card {
        Card::Single(face) => {
            lemma_min_match_cost_nonneg_rec(
                face.abilities@,
                pip_unit(p),
                face.abilities@.len() as int,
            );
        },
        _ => (),
    }
}

proof fn lemma_min_match_cost_nonneg_rec(s: Seq<Ability>, u: Unit, upto: int)
    ensures
        match min_match_cost(s, u, upto) {
            Some(c) => c >= 0,
            None => true,
        },
    decreases upto,
{
    if upto > 0 {
        lemma_min_match_cost_nonneg_rec(s, u, upto - 1);
        match s[upto - 1] {
            Ability::Mana(ma) => {
                match ma.cost.mana_cost {
                    Some(mc) => {
                        crate::mana_cost::lemma_pips_value_nonneg(mc.pips@);
                    },
                    None => (),
                }
            },
            _ => (),
        }
    }
}

} // verus!

verus! {

/// How many untapped, uncommitted lands sit at or after position `i`.
pub open spec fn lands_available(objects: Seq<InPlayObject>, committed: Seq<int>, i: int) -> int
    decreases objects.len() - i,
{
    if i < 0 || i >= objects.len() {
        0
    } else {
        (if !committed.contains(i) && is_untapped_land(objects[i]) {
            1int
        } else {
            0int
        }) + lands_available(objects, committed, i + 1)
    }
}

/// The generic step succeeds exactly when enough untapped, uncommitted lands
/// remain to pay the whole generic requirement.
pub proof fn lemma_pick_generics_iff_available(
    objects: Seq<InPlayObject>,
    committed: Seq<int>,
    n: int,
    i: int,
)
    requires
        0 <= n,
        0 <= i <= objects.len(),
    ensures
        pick_generics(objects, committed, n, i) is Some <==> n <= lands_available(
            objects,
            committed,
            i,
        ),
    decreases objects.len() - i,
{
    if n == 0 {
        lemma_lands_available_nonneg(objects, committed, i);
    } else if i < objects.len() {
        if !committed.contains(i) && is_untapped_land(objects[i]) {
            lemma_pick_generics_iff_available(objects, committed, n - 1, i + 1);
        } else {
            lemma_pick_generics_iff_available(objects, committed, n, i + 1);
        }
    }
}

proof fn lemma_lands_available_nonneg(objects: Seq<InPlayObject>, committed: Seq<int>, i: int)
    ensures
        lands_available(objects, committed, i) >= 0,
    decreases objects.len() - i,
{
    if 0 <= i < objects.len() {
        lemma_lands_available_nonneg(objects, committed, i + 1);
    }
}

/// Even when the raw land count covers the cost's mana value, the solver
/// fails whenever the lands left over after the colored step cannot also pay
/// the extra generic mana the chosen sources demand.
pub proof fn lemma_unpayable_extra_fails(objects: Seq<InPlayObject>, pips: Seq<Pip>)
    requires
        colored_plan(objects, pips, pips.len() as int) is Some,
        lands_available(
            objects,
            colored_plan(objects, pips, pips.len() as int).unwrap().0,
            0,
        ) < generic_sum(pips, pips.len() as int) + colored_plan(
            objects,
            pips,
            pips.len() as int,
        ).unwrap().1,
    ensures
        solver_plan(objects, pips) is None,
{
    let (chosen, extra) = colored_plan(objects, pips, pips.len() as int).unwrap();
    let n = generic_sum(pips, pips.len() as int) + extra;
    lemma_generic_sum_nonneg(pips, pips.len() as int);
    lemma_colored_plan_counts(objects, pips, pips.len() as int);
    lemma_pick_generics_iff_available(objects, chosen, n, 0);
}

} // verus!

verus! {

proof fn lemma_pick_source_props(
    objects: Seq<InPlayObject>,
    committed: Seq<int>,
    p: Pip,
    upto: int,
)
    requires
        pick_source(objects, committed, p, upto) is Some,
        upto <= objects.len(),
    ensures
        ({
            let (i, c) = pick_source(objects, committed, p, upto).unwrap();
            0 <= i < objects.len() && is_untapped_land(objects[i]) && !committed.contains(i)
        }),
    decreases upto,
{
    if upto > 0 {
        if pick_source(objects, committed, p, upto - 1) is Some {
            lemma_pick_source_props(objects, committed, p, upto - 1);
        }
    }
}

proof fn lemma_colored_plan_members(objects: Seq<InPlayObject>, pips: Seq<Pip>, upto: int)
    requires
        colored_plan(objects, pips, upto) is Some,
    ensures
        ({
            let (chosen, extra) = colored_plan(objects, pips, upto).unwrap();
            forall|a: int|
                0 <= a < chosen.len() ==> 0 <= #[trigger] chosen[a] < objects.len()
                    && is_untapped_land(objects[chosen[a]])
        }),
    decreases upto,
{
    if upto > 0 {
        lemma_colored_plan_members(objects, pips, upto - 1);
        let (chosen0, extra0) = colored_plan(objects, pips, upto - 1).unwrap();
        if !pip_is_generic(pips[upto - 1]) {
            lemma_pick_source_props(objects, chosen0, pips[upto - 1], objects.len() as int);
        }
    }
}

/// Whatever the cost, every source the solver commits is an object that was
/// an untapped land; nothing else is ever tapped.
pub proof fn lemma_solver_taps_only_untapped_lands(objects: Seq<InPlayObject>, pips: Seq<Pip>)
    requires
        solver_plan(objects, pips) is Some,
    ensures
        forall|a: int|
            0 <= a < solver_plan(objects, pips).unwrap().len() ==> 0 <= #[trigger] (solver_plan(
                objects,
                pips,
            ).unwrap()[a]) < objects.len() && is_untapped_land(
                objects[solver_plan(objects, pips).unwrap()[a]],
            ),
{
    let (chosen, extra) = colored_plan(objects, pips, pips.len() as int).unwrap();
    let n = generic_sum(pips, pips.len() as int) + extra;
    let gens = pick_generics(objects, chosen, n, 0).unwrap();
    lemma_colored_plan_members(objects, pips, pips.len() as int);
    lemma_pick_generics_props(objects, chosen, n, 0);
    let plan = solver_plan(objects, pips).unwrap();
    assert(plan =~= chosen + gens);
    assert forall|a: int|
        0 <= a < plan.len() implies 0 <= #[trigger] plan[a] < objects.len() && is_untapped_land(
        objects[plan[a]],
    ) by {
        if a < chosen.len() {
            assert(plan[a] == chosen[a]);
        } else {
            assert(plan[a] == gens[a - chosen.len()]);
        }
    }
}

} // verus!

verus! {

proof fn lemma_tapped_count_empty(n: int)
    ensures
        tapped_count(Seq::<int>::empty(), n) == 0,
    decreases n,
{
    if n > 0 {
        lemma_tapped_count_empty(n - 1);
    }
}

proof fn lemma_tapped_count_push(plan: Seq<int>, x: int, k: int)
    requires
        !plan.contains(x),
    ensures
        tapped_count(plan.push(x), k) == tapped_count(plan, k) + if 0 <= x < k {
            1int
        } else {
            0int
        },
    decreases k,
{
    if k > 0 {
        lemma_tapped_count_push(plan, x, k - 1);
        lemma_contains_push(plan, x, k - 1);
    }
}

/// A plan of distinct, in-range positions commits exactly its own number of
/// taps.
pub proof fn lemma_tapped_count_of_distinct(plan: Seq<int>, n: int)
    requires
        forall|a: int| 0 <= a < plan.len() ==> 0 <= #[trigger] plan[a] < n,
        forall|a: int, b: int| 0 <= a < b < plan.len() ==> #[trigger] plan[a] < #[trigger] plan[b],
    ensures
        tapped_count(plan, n) == plan.len(),
    decreases plan.len(),
{
    if plan.len() == 0 {
        assert(plan =~= Seq::<int>::empty());
        lemma_tapped_count_empty(n);
    } else {
        let shorter = plan.drop_last();
        let last = plan.last();
        assert(forall|a: int| 0 <= a < shorter.len() ==> shorter[a] == plan[a]);
        assert(!shorter.contains(last)) by {
            if shorter.contains(last) {
                let j = choose|j: int| 0 <= j < shorter.len() && shorter[j] == last;
                assert(plan[j] < plan[plan.len() - 1]);
            }
        }
        lemma_tapped_count_of_distinct(shorter, n);
        assert(plan =~= shorter.push(last));
        lemma_tapped_count_push(shorter, last, n);
    }
}

} // verus!
