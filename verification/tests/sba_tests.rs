use mtg_engine::cards::CardRegistry;
use mtg_engine::ids::{CardId, PlayerId};
use mtg_engine::sba::check_state_based_actions;
use mtg_engine::state::{GameResult, GameState};
use mtg_engine::types::Zone;

fn registry() -> CardRegistry {
    CardRegistry::with_all_cards()
}

#[test]
fn creature_dies_from_lethal_damage() {
    let reg = registry();
    let mut state = GameState::new(2);
    let id = state.create_object(CardId(1), PlayerId(0), Zone::Battlefield, Some(2), Some(2));
    state.get_object_mut(id).unwrap().damage_marked = 2;

    assert!(check_state_based_actions(&mut state, &reg));
    assert_eq!(state.get_object(id).unwrap().zone, Zone::Graveyard);
}

#[test]
fn creature_dies_from_zero_toughness() {
    let reg = registry();
    let mut state = GameState::new(2);
    let id = state.create_object(CardId(1), PlayerId(0), Zone::Battlefield, Some(1), Some(0));

    assert!(check_state_based_actions(&mut state, &reg));
    assert_eq!(state.get_object(id).unwrap().zone, Zone::Graveyard);
}

#[test]
fn player_loses_at_zero_life() {
    let reg = registry();
    let mut state = GameState::new(2);
    state.players[0].life = 0;

    assert!(check_state_based_actions(&mut state, &reg));
    assert!(state.players[0].lost);
    assert_eq!(state.result, Some(GameResult::Winner(PlayerId(1))));
}

#[test]
fn player_loses_from_empty_library_draw() {
    let reg = registry();
    let mut state = GameState::new(2);
    state.players[1].has_drawn_from_empty = true;

    assert!(check_state_based_actions(&mut state, &reg));
    assert!(state.players[1].lost);
}

#[test]
fn no_action_when_everything_fine() {
    let reg = registry();
    let mut state = GameState::new(2);
    state.create_object(CardId(1), PlayerId(0), Zone::Battlefield, Some(2), Some(3));

    assert!(!check_state_based_actions(&mut state, &reg));
}

#[test]
fn a_permanent_that_is_not_due_stays_as_it_was() {
    let reg = CardRegistry::with_all_cards();
    let mut state = GameState::new(2);
    let dying = state.create_object(CardId(1), PlayerId(0), Zone::Battlefield, Some(2), Some(2));
    let staying = state.create_object(CardId(1), PlayerId(1), Zone::Battlefield, Some(2), Some(2));
    state.get_object_mut(dying).unwrap().damage_marked = 2;
    state.get_object_mut(staying).unwrap().damage_marked = 1;
    assert!(check_state_based_actions(&mut state, &reg));
    assert_eq!(state.get_object(dying).unwrap().zone, Zone::Graveyard);
    let o = state.get_object(staying).unwrap();
    assert_eq!(o.zone, Zone::Battlefield);
    assert_eq!(o.damage_marked, 1);
    assert_eq!(o.controller, PlayerId(1));
}
