//! Cards: a tagged variant over face arrangements, plus pure queries over it.
//! Every query matches the closed variant set exhaustively.

use vstd::prelude::*;
use crate::abilities::{Ability, EntersAbility};
use crate::color::Color;
use crate::mana_cost::{pips_value, ManaCost};
use crate::types::Type;

verus! {

#[derive(Debug, Clone, PartialEq, Eq)]
pub enum Card {
    Single(CardFace),
    Split(CardFace, CardFace),
    Adventure { primary: CardFace, adventure: CardFace },
    Omen { primary: CardFace, omen: CardFace },
}

#[derive(Debug, Clone, PartialEq, Eq)]
pub struct CardFace {
    pub name: String,
    pub mana_cost: Option<ManaCost>,
    pub color: Color,
    pub is_legendary: bool,
    pub type_line: Type,
    pub abilities: Vec<Ability>,
}

impl CardFace {
    pub open spec fn spec_mana_value(self) -> int {
        match self.mana_cost {
            Some(cost) => pips_value(cost.pips@),
            None => 0,
        }
    }

    /// A face is well formed when its cost's total value fits the value
    /// type, and so does the cost of each of its mana abilities.
    pub open spec fn wf(self) -> bool {
        &&& self.spec_mana_value() <= u8::MAX
        &&& (forall|i: int| 0 <= i < self.abilities@.len() ==> (#[trigger] self.abilities@[i]).wf())
    }

    pub open spec fn spec_is_land(self) -> bool {
        self.type_line matches Type::Land(_)
    }

    pub fn mana_value(&self) -> (r: u8)
        requires
            self.wf(),
        ensures
            r as int == self.spec_mana_value(),
    {
        match &self.mana_cost {
            Some(cost) => cost.mana_value(),
            None => 0,
        }
    }

    pub fn is_land(&self) -> (r: bool)
        ensures
            r == self.spec_is_land(),
    {
        matches!(self.type_line, Type::Land(_))
    }
}

/// True when the ability sequence holds the enters-tapped marker.
pub open spec fn has_enter_tapped(abilities: Seq<Ability>) -> bool {
    exists|i: int|
        0 <= i < abilities.len() && abilities[i] == Ability::Enters(EntersAbility::Tapped)
}

/// Scans an ability list for the enters-tapped marker.
pub fn scan_enter_tapped(abilities: &Vec<Ability>) -> (r: bool)
    ensures
        r == has_enter_tapped(abilities@),
{
    let mut i: usize = 0;
    while i < abilities.len()
        invariant
            0 <= i <= abilities@.len(),
            !has_enter_tapped(abilities@.take(i as int)),
        decreases abilities@.len() - i,
    {
        if matches!(abilities[i], Ability::Enters(EntersAbility::Tapped)) {
            assert(abilities@[i as int] == Ability::Enters(EntersAbility::Tapped));
            return true;
        }
        proof {
            assert forall|j: int| 0 <= j < i + 1 implies #[trigger] abilities@.take(i + 1)[j]
                != Ability::Enters(EntersAbility::Tapped) by {
                if j < i {
                    assert(abilities@.take(i as int)[j] == abilities@.take(i + 1)[j]);
                } else {
                    assert(abilities@.take(i + 1)[j] == abilities@[i as int]);
                }
            }
        }
        i = i + 1;
    }
    proof {
        assert(abilities@.take(abilities@.len() as int) =~= abilities@);
    }
    false
}

impl Card {
    /// A card is well formed when each face's cost fits the value type and,
    /// for a split card, the two faces' combined value does too.
    pub open spec fn wf(self) -> bool {
        match self {
            Card::Single(face) => face.wf(),
            Card::Split(a, b) => a.wf() && b.wf() && a.spec_mana_value() + b.spec_mana_value()
                <= u8::MAX,
            Card::Adventure { primary, adventure } => primary.wf() && adventure.wf(),
            Card::Omen { primary, omen } => primary.wf() && omen.wf(),
        }
    }

    pub open spec fn spec_mana_value(self) -> int {
        match self {
            Card::Single(face) => face.spec_mana_value(),
            Card::Split(a, b) => a.spec_mana_value() + b.spec_mana_value(),
            Card::Adventure { primary, .. } => primary.spec_mana_value(),
            Card::Omen { primary, .. } => primary.spec_mana_value(),
        }
    }

    pub open spec fn spec_is_land(self) -> bool {
        match self {
            Card::Single(face) => face.spec_is_land(),
            Card::Adventure { primary, .. } => primary.spec_is_land(),
            Card::Split(_, _) | Card::Omen { .. } => false,
        }
    }

    pub open spec fn spec_primary_name(self) -> Option<Seq<char>> {
        match self {
            Card::Single(face) => Some(face.name@),
            Card::Adventure { primary, .. } => Some(primary.name@),
            Card::Omen { primary, .. } => Some(primary.name@),
            Card::Split(_, _) => None,
        }
    }

    pub open spec fn spec_enters_tapped(self) -> bool {
        match self {
            Card::Single(face) => has_enter_tapped(face.abilities@),
            Card::Adventure { primary, .. } => has_enter_tapped(primary.abilities@),
            Card::Omen { primary, .. } => has_enter_tapped(primary.abilities@),
            Card::Split(_, _) => false,
        }
    }

    /// A split card has no single name, so its primary name is `None`.
    pub fn primary_name(&self) -> (r: Option<&str>)
        ensures
            match r {
                Some(name) => self.spec_primary_name() == Some(name@),
                None => self.spec_primary_name() is None,
            },
    {
        match self {
            Self::Single(face) => Some(face.name.as_str()),
            Self::Adventure { primary, .. } => Some(primary.name.as_str()),
            Self::Omen { primary, .. } => Some(primary.name.as_str()),
            Self::Split(_, _) => None,
        }
    }

    /// The value of a split card is the sum of its two faces' values; the
    /// value of an adventure or omen card is its primary face's value alone.
    pub fn mana_value(&self) -> (r: u8)
        requires
            self.wf(),
        ensures
            r as int == self.spec_mana_value(),
            self matches Card::Split(a, b) ==> r as int == a.spec_mana_value()
                + b.spec_mana_value(),
            (self matches Card::Adventure { primary, .. } ==> r as int
                == primary.spec_mana_value()) && (self matches Card::Omen { primary, .. }
                ==> r as int == primary.spec_mana_value()),
    {
        match self {
            Self::Single(face) => face.mana_value(),
            Self::Split(a, b) => a.mana_value() + b.mana_value(),
            Self::Adventure { primary, .. } => primary.mana_value(),
            Self::Omen { primary, .. } => primary.mana_value(),
        }
    }

    pub fn is_land(&self) -> (r: bool)
        ensures
            r == self.spec_is_land(),
    {
        match &self {
            Self::Single(face) => face.is_land(),
            Self::Adventure { primary, .. } => primary.is_land(),
            Self::Split(_, _) | Self::Omen { .. } => false,
        }
    }

    pub fn enters_tapped(&self) -> (r: bool)
        ensures
            r == self.spec_enters_tapped(),
    {
        match self {
            Card::Single(face) => scan_enter_tapped(&face.abilities),
            Card::Adventure { primary, .. } => scan_enter_tapped(&primary.abilities),
            Card::Omen { primary, .. } => scan_enter_tapped(&primary.abilities),
            Card::Split(_, _) => false,
        }
    }
}

} // verus!
