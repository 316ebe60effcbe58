use mtg_engine::cards::CardRegistry;
use mtg_engine::ids::{CardId, PlayerId};
use mtg_engine::state::GameState;
use mtg_engine::types::{CardType, Zone};

#[test]
fn create_and_move_object() {
    let registry = CardRegistry::with_all_cards();
    let mut state = GameState::new(2);
    let id = state.create_object(CardId(1), PlayerId(0), Zone::Hand, None, None);

    assert_eq!(state.get_object(id).unwrap().zone, Zone::Hand);

    state.move_object(id, Zone::Battlefield, &registry);
    let obj = state.get_object(id).unwrap();
    assert_eq!(obj.zone, Zone::Battlefield);
    assert!(obj.summoning_sick);
    assert_eq!(obj.zone_change_count, 1);
}

#[test]
fn objects_in_zone_filters_correctly() {
    let mut state = GameState::new(2);
    let p0 = PlayerId(0);
    let p1 = PlayerId(1);

    state.create_object(CardId(1), p0, Zone::Hand, None, None);
    state.create_object(CardId(2), p0, Zone::Hand, None, None);
    state.create_object(CardId(1), p1, Zone::Hand, None, None);

    assert_eq!(state.objects_in_zone(Zone::Hand, p0).len(), 2);
    assert_eq!(state.objects_in_zone(Zone::Hand, p1).len(), 1);
}

#[test]
fn leaving_battlefield_resets_state() {
    let registry = CardRegistry::with_all_cards();
    let mut state = GameState::new(2);
    let id = state.create_object(CardId(1), PlayerId(0), Zone::Battlefield, Some(2), Some(2));

    {
        let obj = state.get_object_mut(id).unwrap();
        obj.tapped = true;
        obj.damage_marked = 1;
    }

    state.move_object(id, Zone::Graveyard, &registry);
    let obj = state.get_object(id).unwrap();
    assert!(!obj.tapped);
    assert_eq!(obj.damage_marked, 0);
    assert!(!obj.summoning_sick);
}

#[test]
fn draw_from_empty_library() {
    let mut state = GameState::new(2);
    let player = state.get_player_mut(PlayerId(0));
    assert!(player.draw_top_card().is_none());
    assert!(player.has_drawn_from_empty);
}

#[test]
fn face_data_uses_back_face_when_transformed() {
    let registry = CardRegistry::with_all_cards();
    let mut state = GameState::new(2);
    let dfc = registry.get_id_by_name("Daybreak Ranger").unwrap();
    let id = state.create_object(dfc, PlayerId(0), Zone::Battlefield, Some(2), Some(2));

    assert_eq!(state.face_data(id, &registry).unwrap().name, "Daybreak Ranger");
    state.get_object_mut(id).unwrap().is_transformed = true;
    assert_eq!(state.face_data(id, &registry).unwrap().name, "Nightfall Predator");
}

#[test]
fn card_types_of_falls_back_to_registry_for_non_tokens() {
    let registry = CardRegistry::with_all_cards();
    let mut state = GameState::new(2);
    let pike = registry.get_id_by_name("Runechanter's Pike").unwrap();
    // Non-token permanents have empty object-level card_types.
    let id = state.create_object(pike, PlayerId(0), Zone::Battlefield, None, None);
    assert!(state.get_object(id).unwrap().card_types.is_empty());

    assert!(state.has_card_type(id, CardType::Artifact, &registry));
    assert!(!state.is_creature(id, &registry));
}

#[test]
fn is_creature_covers_cards_tokens_and_anonymous_objects() {
    let registry = CardRegistry::with_all_cards();
    let mut state = GameState::new(2);

    let bears = registry.get_id_by_name("Grizzly Bears").unwrap();
    let card = state.create_object(bears, PlayerId(0), Zone::Battlefield, Some(2), Some(2));
    assert!(state.is_creature(card, &registry));

    // Anonymous object with P/T (test convention).
    let anon = state.create_object(CardId(9999), PlayerId(0), Zone::Battlefield, Some(1), Some(1));
    assert!(state.is_creature(anon, &registry));

    // Aura: no P/T, not a creature.
    let pacifism = registry.get_id_by_name("Pacifism").unwrap();
    let aura = state.create_object(pacifism, PlayerId(0), Zone::Battlefield, None, None);
    assert!(!state.is_creature(aura, &registry));
}

#[test]
fn subtypes_of_is_transform_aware() {
    let registry = CardRegistry::with_all_cards();
    let mut state = GameState::new(2);
    let dfc = registry.get_id_by_name("Daybreak Ranger").unwrap();
    let id = state.create_object(dfc, PlayerId(0), Zone::Battlefield, Some(2), Some(2));

    assert!(state.has_subtype(id, "Human", &registry));
    state.get_object_mut(id).unwrap().is_transformed = true;
    let subs = state.subtypes_of(id, &registry);
    assert!(subs.iter().any(|s| s == "Werewolf"), "back face subtypes: {subs:?}");
}

#[test]
fn equipment_dynamic_pt_does_not_leak_into_own_effective_pt() {
    // Runechanter's Pike gives the equipped creature power and toughness.
    // The equipment itself (base P/T None) must not report effective P/T.
    let registry = CardRegistry::with_all_cards();
    let mut state = GameState::new(2);
    let pike = registry.get_id_by_name("Runechanter's Pike").unwrap();
    let id = state.create_object(pike, PlayerId(0), Zone::Battlefield, None, None);

    assert_eq!(state.effective_power(id, &registry), None,
        "equipment must not have effective power from its own dynamic_pt");
    assert_eq!(state.effective_toughness(id, &registry), None,
        "equipment must not have effective toughness from its own dynamic_pt");
}
