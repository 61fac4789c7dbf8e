//! Abilities a card face can carry: static keywords, triggers on entering
//! play, end-of-step triggers, mana production, and a closed "effect"
//! capability with one variant per bespoke card effect the engine supports.

use vstd::prelude::*;
use crate::mana_cost::{ManaCost, Unit};

verus! {

/// A bespoke state-mutating card effect, applied by the battlefield engine.
/// Keeping these as a closed variant set (rather than raw function values)
/// keeps every consumer exhaustively checked.
#[derive(Debug, Clone, Copy, PartialEq, Eq, Structural)]
pub enum Effect {
    /// The caster gains two life and draws a card.
    GainTwoAndDraw,
    /// Each player puts the top card of their library into their hand; the
    /// opposing player loses life equal to that card's mana value.
    MillForLife,
    /// Every opponent loses one life.
    OpponentsLoseOne,
    /// The caster draws a card.
    DrawOne,
}

#[derive(Debug, Clone, PartialEq, Eq)]
pub enum Ability {
    Flying,
    Trample,
    Menace,
    Lifelink,
    FirstStrike,
    DoubleStrike,
    Enters(EntersAbility),
    EndStep(EndStepAbility),
    Mana(ManaAbility),
    Other(Effect),
}

#[derive(Debug, Clone, Copy, PartialEq, Eq, Structural)]
pub enum EntersAbility {
    Tapped,
    Scry { amount: u8 },
    Surveil { amount: u8 },
    Discover { amount: u8 },
    GainLife { amount: u8 },
}

#[derive(Debug, Clone, Copy, PartialEq, Eq, Structural)]
pub enum EndStepAbility {
    Other(Effect),
}

#[derive(Debug, Clone, PartialEq, Eq)]
pub struct AbilityCost {
    pub tap: bool,
    pub mana_cost: Option<ManaCost>,
}

#[derive(Debug, Clone, PartialEq, Eq)]
pub struct ManaAbility {
    pub cost: AbilityCost,
    pub produce: ManaProduction,
}

#[derive(Debug, Clone, PartialEq, Eq)]
pub enum ManaProduction {
    Single { possible: Vec<Unit> },
}

impl Ability {
    /// Any mana-activation cost fits the value type.
    pub open spec fn wf(self) -> bool {
        match self {
            Ability::Mana(ma) => match ma.cost.mana_cost {
                Some(mc) => mc.wf(),
                None => true,
            },
            _ => true,
        }
    }
}

impl ManaProduction {
    pub fn colorless() -> (r: Self)
        ensures
            r matches ManaProduction::Single { possible } && possible@ == seq![Unit::Colorless],
    {
        let mut possible: Vec<Unit> = Vec::new();
        possible.push(Unit::Colorless);
        proof {
            assert(possible@ =~= seq![Unit::Colorless]);
        }
        Self::Single { possible }
    }

    pub fn white() -> (r: Self)
        ensures
            r matches ManaProduction::Single { possible } && possible@ == seq![Unit::White],
    {
        let mut possible: Vec<Unit> = Vec::new();
        possible.push(Unit::White);
        proof {
            assert(possible@ =~= seq![Unit::White]);
        }
        Self::Single { possible }
    }

    pub fn blue() -> (r: Self)
        ensures
            r matches ManaProduction::Single { possible } && possible@ == seq![Unit::Blue],
    {
        let mut possible: Vec<Unit> = Vec::new();
        possible.push(Unit::Blue);
        proof {
            assert(possible@ =~= seq![Unit::Blue]);
        }
        Self::Single { possible }
    }

    pub fn black() -> (r: Self)
        ensures
            r matches ManaProduction::Single { possible } && possible@ == seq![Unit::Black],
    {
        let mut possible: Vec<Unit> = Vec::new();
        possible.push(Unit::Black);
        proof {
            assert(possible@ =~= seq![Unit::Black]);
        }
        Self::Single { possible }
    }

    pub fn red() -> (r: Self)
        ensures
            r matches ManaProduction::Single { possible } && possible@ == seq![Unit::Red],
    {
        let mut possible: Vec<Unit> = Vec::new();
        possible.push(Unit::Red);
        proof {
            assert(possible@ =~= seq![Unit::Red]);
        }
        Self::Single { possible }
    }

    pub fn green() -> (r: Self)
        ensures
            r matches ManaProduction::Single { possible } && possible@ == seq![Unit::Green],
    {
        let mut possible: Vec<Unit> = Vec::new();
        possible.push(Unit::Green);
        proof {
            assert(possible@ =~= seq![Unit::Green]);
        }
        Self::Single { possible }
    }

    pub fn rakdos() -> (r: Self)
        ensures
            r matches ManaProduction::Single { possible } && possible@ == seq![
                Unit::Black,
                Unit::Red,
            ],
    {
        let mut possible: Vec<Unit> = Vec::new();
        possible.push(Unit::Black);
        possible.push(Unit::Red);
        proof {
            assert(possible@ =~= seq![Unit::Black, Unit::Red]);
        }
        Self::Single { possible }
    }

    pub fn any_color() -> (r: Self)
        ensures
            r matches ManaProduction::Single { possible } && possible@ == seq![
                Unit::White,
                Unit::Blue,
                Unit::Black,
                Unit::Red,
                Unit::Green,
            ],
    {
        let mut possible: Vec<Unit> = Vec::new();
        possible.push(Unit::White);
        possible.push(Unit::Blue);
        possible.push(Unit::Black);
        possible.push(Unit::Red);
        possible.push(Unit::Green);
        proof {
            assert(possible@ =~= seq![
                Unit::White,
                Unit::Blue,
                Unit::Black,
                Unit::Red,
                Unit::Green,
            ]);
        }
        Self::Single { possible }
    }
}

} // verus!
