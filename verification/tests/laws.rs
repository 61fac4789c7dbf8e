use duskmourns_claim::abilities::{Ability, AbilityCost, Effect, ManaAbility, ManaProduction};
use duskmourns_claim::card::{Card, CardFace};
use duskmourns_claim::cast_spell::{auto_tapper, cast_spells};
use duskmourns_claim::color::Color;
use duskmourns_claim::deck::deck;
use duskmourns_claim::mana_cost::{ManaCost, Pip, Unit};
use duskmourns_claim::parallelism::{increment, run_single, tally};
use duskmourns_claim::play_land::{decide_to_bottom, play_a_land};
use duskmourns_claim::player::{OwnedCard, PlayerId, PlayerState};
use duskmourns_claim::simulation::{initialize, opening_hand, simulation_run, turn_cycle, GameFlow};
use duskmourns_claim::types::{LandProperties, Type};

/// A land able to produce only colorless mana, at no cost.
fn colorless_land() -> Card {
    Card::Single(CardFace {
        name: "Wastes".to_owned(),
        mana_cost: None,
        color: Color::colorless(),
        is_legendary: false,
        type_line: Type::Land(LandProperties {
            is_basic: true,
            subtypes: Vec::new(),
        }),
        abilities: vec![Ability::Mana(ManaAbility {
            cost: AbilityCost {
                tap: true,
                mana_cost: None,
            },
            produce: ManaProduction::colorless(),
        })],
    })
}

fn owned(card: Card) -> OwnedCard {
    OwnedCard {
        card,
        owner: PlayerId(0),
    }
}

#[test]
fn test_failed_solve_leaves_battlefield_alone() {
    // Re-running the solver on the unchanged battlefield gives the same
    // answer both times.
    let mut battlefield = initialize();
    for _ in 0..4 {
        battlefield.play_land(owned(colorless_land()));
    }
    let cost = ManaCost {
        pips: vec![
            Pip::Single(Unit::Generic { amount: 2 }),
            Pip::Single(Unit::Black),
        ],
    };
    assert!(!auto_tapper(&mut battlefield, cost.as_ref()));
    assert!(battlefield.objects.iter().all(|o| !o.tapped));
    assert!(!auto_tapper(&mut battlefield, cost.as_ref()));
    assert!(battlefield.objects.iter().all(|o| !o.tapped));
}

#[test]
fn test_generic_cost_taps_exactly_n() {
    // {3} against five untapped colorless lands taps exactly three.
    let mut battlefield = initialize();
    for _ in 0..5 {
        battlefield.play_land(owned(colorless_land()));
    }
    let cost = ManaCost {
        pips: vec![Pip::Single(Unit::Generic { amount: 3 })],
    };
    assert!(auto_tapper(&mut battlefield, cost.as_ref()));
    let tapped = battlefield.objects.iter().filter(|o| o.tapped).count();
    assert_eq!(tapped, 3);
}

#[test]
fn test_colorless_sources_never_pay_colored_pips() {
    // One colored pip fails against any number of colorless-only lands.
    let mut battlefield = initialize();
    for _ in 0..10 {
        battlefield.play_land(owned(colorless_land()));
    }
    let cost = ManaCost {
        pips: vec![Pip::Single(Unit::Black)],
    };
    assert!(!auto_tapper(&mut battlefield, cost.as_ref()));
    assert!(battlefield.objects.iter().all(|o| !o.tapped));
}

#[test]
fn test_activation_costs_raise_the_tap_count() {
    // {2}{B} paid entirely from lands whose colored mana costs one extra
    // generic: one colored source + (two + one extra) generic lands.
    let cards = deck();
    let grotto = cards
        .iter()
        .find(|c| c.primary_name() == Some("Crystal Grotto"))
        .cloned()
        .unwrap();
    let mut battlefield = initialize();
    for _ in 0..4 {
        battlefield.play_land(owned(grotto.clone()));
    }
    let cost = ManaCost {
        pips: vec![
            Pip::Single(Unit::Generic { amount: 2 }),
            Pip::Single(Unit::Black),
        ],
    };
    assert!(auto_tapper(&mut battlefield, cost.as_ref()));
    let tapped = battlefield.objects.iter().filter(|o| o.tapped).count();
    assert_eq!(tapped, 4, "three taps for the cost plus one for activation");

    // With one land fewer the raw count still covers the mana value, yet the
    // extra activation mana cannot be paid.
    let mut battlefield = initialize();
    for _ in 0..3 {
        battlefield.play_land(owned(grotto.clone()));
    }
    assert!(!auto_tapper(&mut battlefield, cost.as_ref()));
    assert!(battlefield.objects.iter().all(|o| !o.tapped));
}

#[test]
fn test_decked_draw() {
    let mut player = PlayerState::new(0, Vec::new());
    assert!(player.draw_a_card().is_err());
    assert_eq!(player.zones.hand.len(), 0);
}

#[test]
fn test_shuffled_library_holds_the_same_cards() {
    // Construction shuffles, but every card of the deck is still there.
    let player = PlayerState::new(3, deck());
    assert_eq!(player.zones.library.len(), 60);
    let mountains = player
        .zones
        .library
        .iter()
        .filter(|c| c.card.primary_name() == Some("Mountain"))
        .count();
    assert_eq!(mountains, 3);
    let claims = player
        .zones
        .library
        .iter()
        .filter(|c| c.card.primary_name() == Some("Duskmourn's Claim"))
        .count();
    assert_eq!(claims, 4);
    let lands = player
        .zones
        .library
        .iter()
        .filter(|c| c.card.is_land())
        .count();
    assert_eq!(lands, 26);
    assert!(player
        .zones
        .library
        .iter()
        .all(|c| c.owner == PlayerId(3)));
}

#[test]
fn test_increment_grows_and_counts() {
    let mut table: Vec<usize> = vec![5, 0];
    increment(&mut table, 0);
    assert_eq!(table, vec![6, 0]);
    increment(&mut table, 4);
    assert_eq!(table, vec![6, 0, 0, 0, 1]);
}

#[test]
fn test_tally_totals_match_the_batch() {
    let outcomes: Vec<isize> = vec![3, -4, 3, 25];
    let (wins, losses) = tally(&outcomes);
    assert!(wins.len() >= 20);
    assert!(losses.len() >= 20);
    assert_eq!(wins[3], 2);
    assert_eq!(wins[25], 1);
    assert_eq!(losses[4], 1);
    let total: usize = wins.iter().sum::<usize>() + losses.iter().sum::<usize>();
    assert_eq!(total, outcomes.len());
}

#[test]
fn test_simulation_terminates_with_nonzero_outcome() {
    for _ in 0..5 {
        let outcome = simulation_run();
        assert_ne!(outcome, 0);
        assert!((-54..=54).contains(&outcome));
    }
}

#[test]
fn test_run_single_batch_size() {
    let outcomes = run_single(7);
    assert_eq!(outcomes.len(), 7);
    assert!(outcomes.iter().all(|o| *o != 0));
}

#[test]
fn test_opening_hand_draws_seven() {
    let mut battlefield = initialize();
    opening_hand(&mut battlefield);
    let player = battlefield.players.first().unwrap();
    assert_eq!(player.zones.hand.len(), 7);
    assert_eq!(player.zones.library.len(), 53);
}

#[test]
fn test_empty_library_loses_on_the_draw() {
    let mut battlefield = initialize();
    battlefield.players[0].zones.library.clear();
    assert!(matches!(turn_cycle(&mut battlefield), GameFlow::Loss));
}

#[test]
fn test_gain_two_and_draw_effect() {
    let mut battlefield = initialize();
    let life = battlefield.players[0].life_total;
    let hand = battlefield.players[0].zones.hand.len();
    battlefield.apply_effect(Effect::GainTwoAndDraw);
    assert_eq!(battlefield.players[0].life_total, life + 2);
    assert_eq!(battlefield.players[0].zones.hand.len(), hand + 1);
    assert_eq!(battlefield.players[0].zones.library.len(), 59);
}

#[test]
fn test_mill_for_life_effect() {
    let mut battlefield = initialize();
    battlefield.apply_effect(Effect::MillForLife);
    // The opponent's library is all mountains, so the caster loses no life
    // for them (lands cost nothing); the caster's revealed card costs the
    // opponent its mana value.
    assert_eq!(battlefield.players[0].zones.hand.len(), 1);
    assert_eq!(battlefield.players[1].zones.hand.len(), 1);
    assert_eq!(battlefield.players[0].life_total, 20);
    let revealed = battlefield.players[0].zones.hand[0].card.mana_value() as i32;
    assert_eq!(battlefield.players[1].life_total, 20 - revealed);
}

#[test]
fn test_cast_spells_plays_the_claim() {
    let cards = deck();
    let swamp = cards
        .iter()
        .find(|c| c.primary_name() == Some("Swamp"))
        .cloned()
        .unwrap();
    let claim = cards
        .iter()
        .find(|c| c.primary_name() == Some("Duskmourn's Claim"))
        .cloned()
        .unwrap();
    let mut battlefield = initialize();
    for _ in 0..3 {
        battlefield.play_land(owned(swamp.clone()));
    }
    battlefield.players[0].zones.hand.push(owned(claim));
    cast_spells(&mut battlefield);
    assert_eq!(battlefield.players[0].zones.hand.len(), 0);
    assert_eq!(battlefield.objects.len(), 4);
    assert!(battlefield
        .objects
        .iter()
        .any(|o| o.card.card.primary_name() == Some("Duskmourn's Claim")));
    assert_eq!(
        battlefield.objects.iter().filter(|o| o.tapped).count(),
        3,
        "all three swamps pay for the claim"
    );
}

#[test]
fn test_the_deck_wins_games() {
    // The modeled deck is built to win long before it decks itself; across a
    // batch of games at least one win must show up, and wins should be the
    // usual outcome.
    let outcomes = run_single(30);
    let wins = outcomes.iter().filter(|o| **o > 0).count();
    assert!(wins > 0, "no game was won: {:?}", outcomes);
}

#[test]
fn test_play_a_land_makes_the_drop() {
    let cards = deck();
    let swamp = cards
        .iter()
        .find(|c| c.primary_name() == Some("Swamp"))
        .cloned()
        .unwrap();
    let grotto = cards
        .iter()
        .find(|c| c.primary_name() == Some("Crystal Grotto"))
        .cloned()
        .unwrap();
    let mut battlefield = initialize();
    battlefield.players[0].zones.hand.push(owned(grotto));
    battlefield.players[0].zones.hand.push(owned(swamp));
    let library_before = battlefield.players[0].zones.library.len();
    play_a_land(&mut battlefield);
    assert_eq!(battlefield.objects.len(), 1);
    assert_eq!(battlefield.players[0].zones.hand.len(), 1);
    // The scry of a grotto never shrinks the library; a swamp has no trigger.
    assert_eq!(battlefield.players[0].zones.library.len(), library_before);
}

#[test]
fn test_scried_claim_stays_on_top() {
    let cards = deck();
    let claim = cards
        .iter()
        .find(|c| c.primary_name() == Some("Duskmourn's Claim"))
        .unwrap();
    let swamp = cards
        .iter()
        .find(|c| c.primary_name() == Some("Swamp"))
        .unwrap();
    let stormbrood = cards
        .iter()
        .find(|c| c.primary_name() == Some("Twinmaw Stormbrood"))
        .unwrap();
    // The key enchantment always stays on top.
    assert!(!decide_to_bottom(false, claim));
    assert!(!decide_to_bottom(true, claim));
    // Lands stay on top only until the key enchantment is in play.
    assert!(!decide_to_bottom(false, swamp));
    assert!(decide_to_bottom(true, swamp));
    // Expensive spells stay on top only once it is.
    assert!(decide_to_bottom(false, stormbrood));
    assert!(!decide_to_bottom(true, stormbrood));
}

#[test]
fn test_unpayable_spell_stays_in_hand() {
    // A copy the solver cannot pay for goes back into the hand: no card ever
    // leaves the game.
    let cards = deck();
    let claim = cards
        .iter()
        .find(|c| c.primary_name() == Some("Duskmourn's Claim"))
        .cloned()
        .unwrap();
    let mut battlefield = initialize();
    battlefield.players[0].zones.hand.push(owned(claim));
    cast_spells(&mut battlefield);
    assert_eq!(battlefield.players[0].zones.hand.len(), 1);
    assert_eq!(
        battlefield.players[0].zones.hand[0].card.primary_name(),
        Some("Duskmourn's Claim")
    );
    assert_eq!(battlefield.objects.len(), 0);
}
