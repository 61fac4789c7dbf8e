//! Type lines: closed, exhaustively matched variants for the card types the
//! engine models, each carrying its type-specific properties.

use vstd::prelude::*;

verus! {

#[derive(Debug, Clone, PartialEq, Eq)]
pub enum Type {
    Creature(CreatureProperties),
    Artifact(ArtifactProperties),
    Enchantment(EnchantmentProperties),
    ArtifactCreature { artifact: ArtifactProperties, creature: CreatureProperties },
    EnchantmentCreature { enchantment: EnchantmentProperties, creature: CreatureProperties },
    Land(LandProperties),
    Instant,
    Sorcery,
}

#[derive(Debug, Clone, PartialEq, Eq)]
pub struct LandProperties {
    pub is_basic: bool,
    pub subtypes: Vec<LandSubtypes>,
}

#[derive(Debug, Clone, PartialEq, Eq)]
pub struct EnchantmentProperties {
    pub subtypes: Vec<EnchantmentSubtypes>,
}

#[derive(Debug, Clone, PartialEq, Eq)]
pub struct ArtifactProperties {
    pub subtypes: Vec<ArtifactSubtypes>,
}

#[derive(Debug, Clone, Copy, PartialEq, Eq, Structural)]
pub enum LandSubtypes {
    Plains,
    Island,
    Swamp,
    Mountain,
    Forest,
    Town,
    Cave,
    Desert,
}

#[derive(Debug, Clone, Copy, PartialEq, Eq, Structural)]
pub enum EnchantmentSubtypes {
    Room,
}

#[derive(Debug, Clone, Copy, PartialEq, Eq, Structural)]
pub enum ArtifactSubtypes {
    Food,
}

#[derive(Debug, Clone, PartialEq, Eq)]
pub struct CreatureProperties {
    pub subtypes: Vec<CreatureSubtypes>,
    pub power: Power,
    pub toughness: Toughness,
}

#[derive(Debug, Clone, Copy, PartialEq, Eq, Structural)]
pub enum CreatureSubtypes {
    Artificer,
    Demon,
    Dinosaur,
    Dragon,
    Human,
}

#[derive(Debug, Clone, Copy, PartialEq, Eq, Structural)]
pub enum Power {
    Value(u32),
    Dynamic { modifier: Option<Expression> },
}

#[derive(Debug, Clone, Copy, PartialEq, Eq, Structural)]
pub enum Toughness {
    Value(u32),
    Dynamic { modifier: Option<Expression> },
}

#[derive(Debug, Clone, Copy, PartialEq, Eq, Structural)]
pub enum Expression {
    PlusOne,
}

} // verus!
