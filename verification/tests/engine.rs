use duskmourns_claim::card::Card;
use duskmourns_claim::cast_spell::auto_tapper;
use duskmourns_claim::color::Color;
use duskmourns_claim::deck::deck;
use duskmourns_claim::mana_cost::{ManaCost, Pip, Unit};
use duskmourns_claim::play_land::select_land_to_play;
use duskmourns_claim::player::OwnedCard;
use duskmourns_claim::simulation::initialize;

#[test]
fn test_color() {
    assert!(Color::white().is_white());
    assert!(!Color::white().is_blue());
    assert!(!Color::white().is_black());
    assert!(!Color::white().is_red());
    assert!(!Color::white().is_green());

    assert!(!Color::blue().is_white());
    assert!(Color::blue().is_blue());
    assert!(!Color::blue().is_black());
    assert!(!Color::blue().is_red());
    assert!(!Color::blue().is_green());

    assert!(!Color::black().is_white());
    assert!(!Color::black().is_blue());
    assert!(Color::black().is_black());
    assert!(!Color::black().is_red());
    assert!(!Color::black().is_green());

    assert!(!Color::red().is_white());
    assert!(!Color::red().is_blue());
    assert!(!Color::red().is_black());
    assert!(Color::red().is_red());
    assert!(!Color::red().is_green());

    assert!(!Color::green().is_white());
    assert!(!Color::green().is_blue());
    assert!(!Color::green().is_black());
    assert!(!Color::green().is_red());
    assert!(Color::green().is_green());

    assert!(!Color::colorless().is_white());
    assert!(!Color::colorless().is_blue());
    assert!(!Color::colorless().is_black());
    assert!(!Color::colorless().is_red());
    assert!(!Color::colorless().is_green());

    assert!(!Color::izzet().is_white());
    assert!(Color::izzet().is_blue());
    assert!(!Color::izzet().is_black());
    assert!(Color::izzet().is_red());
    assert!(!Color::izzet().is_green());
}

#[test]
fn test_deck() {
    assert_eq!(deck().len(), 60);
}

#[test]
fn test_auto_tapper() {
    let mut battlefield = initialize();
    let lands: Vec<OwnedCard> = battlefield
        .players
        .first()
        .unwrap()
        .zones
        .library
        .iter()
        .filter(|c| c.card.is_land())
        .cloned()
        .collect();

    let mana_cost = ManaCost {
        pips: vec![
            Pip::Single(Unit::Generic { amount: 2 }),
            Pip::Single(Unit::Black),
        ],
    };
    let mana_value = mana_cost.mana_value();

    // If there are no black sources in play then we cannot cast a card with cost {2}{B}
    let mountain = lands
        .iter()
        .find(|c| c.card.primary_name() == Some("Mountain"))
        .unwrap()
        .clone();
    for _ in 0..mana_value {
        battlefield.play_land(mountain.clone());
    }
    assert!(
        !auto_tapper(&mut battlefield, mana_cost.as_ref()),
        "Cannot cast"
    );
    assert!(
        battlefield.objects.iter().all(|o| !o.tapped),
        "Nothing is tapped if nothing is cast"
    );
    battlefield.objects.clear();

    // If there are black sources, but not enough total mana then nothing is cast
    let swamp = lands
        .iter()
        .find(|c| c.card.primary_name() == Some("Swamp"))
        .unwrap()
        .clone();
    for _ in 1..mana_value {
        battlefield.play_land(swamp.clone());
    }
    assert!(
        !auto_tapper(&mut battlefield, mana_cost.as_ref()),
        "Cannot cast"
    );
    assert!(
        battlefield.objects.iter().all(|o| !o.tapped),
        "Nothing is tapped if nothing is cast"
    );
    battlefield.objects.clear();

    // If there are black sources, but they cost extra mana then still cannot cast
    let grotto = lands
        .iter()
        .find(|c| c.card.primary_name() == Some("Crystal Grotto"))
        .unwrap()
        .clone();
    for _ in 0..mana_value {
        battlefield.play_land(grotto.clone());
    }
    assert!(
        !auto_tapper(&mut battlefield, mana_cost.as_ref()),
        "Cannot cast"
    );
    assert!(
        battlefield.objects.iter().all(|o| !o.tapped),
        "Nothing is tapped if nothing is cast"
    );
    battlefield.objects.clear();

    // With enough swamps we can cast the spell
    for _ in 0..mana_value {
        battlefield.play_land(swamp.clone());
    }
    assert!(
        auto_tapper(&mut battlefield, mana_cost.as_ref()),
        "Can cast"
    );
    assert!(
        battlefield.objects.iter().all(|o| o.tapped),
        "All lands are tapped to cast"
    );
    battlefield.objects.clear();

    // With one swamp and two grottos we can cast the spell
    battlefield.play_land(swamp.clone());
    for _ in 1..mana_value {
        battlefield.play_land(grotto.clone());
    }
    assert!(
        auto_tapper(&mut battlefield, mana_cost.as_ref()),
        "Can cast"
    );
    assert!(
        battlefield.objects.iter().all(|o| o.tapped),
        "All lands are tapped to cast"
    );
    battlefield.objects.clear();

    // With only grottos we can cast the spell, but we need an additional land
    for _ in 0..(mana_value + 1) {
        battlefield.play_land(grotto.clone());
    }
    assert!(
        auto_tapper(&mut battlefield, mana_cost.as_ref()),
        "Can cast"
    );
    assert!(
        battlefield.objects.iter().all(|o| o.tapped),
        "All lands are tapped to cast"
    );
    battlefield.objects.clear();

    // If we have more than enough lands then some remain untapped
    battlefield.play_land(swamp);
    for _ in 0..mana_value {
        battlefield.play_land(mountain.clone());
    }
    assert!(
        auto_tapper(&mut battlefield, mana_cost.as_ref()),
        "Can cast"
    );
    assert!(
        battlefield
            .objects
            .iter()
            .take(mana_value.into())
            .all(|o| o.tapped),
        "All lands except one tapped to cast"
    );
    assert!(
        !battlefield.objects.last().unwrap().tapped,
        "Last land remains untapped"
    );
}

#[test]
fn test_select_land() {
    let deck = deck();

    // Untapped, produces black
    let swamp = deck
        .iter()
        .find(|c| c.primary_name() == Some("Swamp"))
        .cloned()
        .unwrap();
    // Produces black, scrys
    let theatre = deck
        .iter()
        .find(|c| c.primary_name() == Some("Raucous Theater"))
        .cloned()
        .unwrap();
    // Untapped, scrys
    let grotto = deck
        .iter()
        .find(|c| c.primary_name() == Some("Crystal Grotto"))
        .cloned()
        .unwrap();

    let mut battlefield = initialize();
    let player = battlefield.players.first_mut().unwrap();
    let id = player.id;
    let hand = &mut player.zones.hand;
    hand.push(OwnedCard {
        card: swamp.clone(),
        owner: id,
    });
    hand.push(OwnedCard {
        card: theatre.clone(),
        owner: id,
    });
    hand.push(OwnedCard {
        card: grotto.clone(),
        owner: id,
    });

    // On turn 1 we choose theater
    assert_eq!(
        select_land_to_play(player, true, false)
            .unwrap()
            .card
            .primary_name(),
        theatre.primary_name()
    );
    player.zones.hand.push(OwnedCard {
        card: theatre.clone(),
        owner: id,
    });

    // Before claim is in play we prefer an untapped black source
    assert_eq!(
        select_land_to_play(player, false, false)
            .unwrap()
            .card
            .primary_name(),
        swamp.primary_name()
    );
    player.zones.hand.push(OwnedCard {
        card: swamp.clone(),
        owner: id,
    });

    // After Claim is in play we prefer to scry
    assert_eq!(
        select_land_to_play(player, false, true)
            .unwrap()
            .card
            .primary_name(),
        grotto.primary_name()
    );
    player.zones.hand.push(OwnedCard {
        card: grotto.clone(),
        owner: id,
    });
}

#[test]
fn test_mana_values() {
    // A hybrid pip is worth the larger of its two options.
    let hybrid = Pip::Hybrid(Unit::Generic { amount: 3 }, Unit::Black);
    assert_eq!(hybrid.mana_value(), 3);
    let hybrid_colors = Pip::Hybrid(Unit::Black, Unit::Green);
    assert_eq!(hybrid_colors.mana_value(), 1);

    // A split card is worth the sum of its faces; adventure and omen cards
    // are worth their primary face alone.
    let cards = deck();
    let cease_desist = cards
        .iter()
        .find(|c| matches!(c, Card::Split(l, _) if l.name == "Cease"))
        .unwrap();
    assert_eq!(cease_desist.mana_value(), 2 + 6);
    let virtue = cards
        .iter()
        .find(|c| c.primary_name() == Some("Virtue of Persistence"))
        .unwrap();
    assert_eq!(virtue.mana_value(), 7);
    let stormbrood = cards
        .iter()
        .find(|c| c.primary_name() == Some("Twinmaw Stormbrood"))
        .unwrap();
    assert_eq!(stormbrood.mana_value(), 6);
    let x_pip = Pip::Single(Unit::X);
    assert_eq!(x_pip.mana_value(), 0);
}
