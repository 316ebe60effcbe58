use mtg_engine::actions::Target;
use mtg_engine::cards::{CardRegistry, ReplacementDef, TriggerKind};
use mtg_engine::ids::{CardId, ObjectId, PlayerId};
use mtg_engine::replacement::{process_pending_entry_choices, record_entry_choice, refresh_pending_entry_choice};
use mtg_engine::sba::check_state_based_actions;
use mtg_engine::state::{AwaitingAction, EnterAsCopyChoice, GameState, PendingEffect, ResolutionChoiceKind};
use mtg_engine::triggers::{card_has_trigger, face_trigger_description, trigger_description};
use mtg_engine::types::{CardType, Color, CounterType, Keyword, Zone};

fn registry() -> CardRegistry {
    CardRegistry::with_all_cards()
}

// ---- state-based actions ----

#[test]
fn deathtouch_damage_kills_a_large_creature() {
    let reg = registry();
    let mut state = GameState::new(2);
    let id = state.create_object(CardId(9999), PlayerId(0), Zone::Battlefield, Some(5), Some(5));
    {
        let o = state.get_object_mut(id).unwrap();
        o.damage_marked = 1;
        o.dealt_deathtouch_damage = true;
    }
    assert!(check_state_based_actions(&mut state, &reg));
    assert_eq!(state.get_object(id).unwrap().zone, Zone::Graveyard);
    assert!(state.creature_died_this_turn);
}

#[test]
fn regeneration_shield_saves_a_creature() {
    let reg = registry();
    let mut state = GameState::new(2);
    let id = state.create_object(CardId(9999), PlayerId(0), Zone::Battlefield, Some(2), Some(2));
    {
        let o = state.get_object_mut(id).unwrap();
        o.damage_marked = 3;
        o.regeneration_shields = 1;
    }
    assert!(check_state_based_actions(&mut state, &reg));
    let o = state.get_object(id).unwrap();
    assert_eq!(o.zone, Zone::Battlefield);
    assert_eq!(o.damage_marked, 0);
    assert_eq!(o.regeneration_shields, 0);
    assert!(o.tapped);
}

#[test]
fn aura_without_object_goes_to_graveyard_and_equipment_falls_off() {
    let reg = registry();
    let mut state = GameState::new(2);
    let pacifism = reg.get_id_by_name("Pacifism").unwrap();
    let pike = reg.get_id_by_name("Runechanter's Pike").unwrap();
    let aura = state.create_object(pacifism, PlayerId(0), Zone::Battlefield, None, None);
    let equipment = state.create_object(pike, PlayerId(0), Zone::Battlefield, None, None);
    state.get_object_mut(aura).unwrap().attached_to = Some(ObjectId(500));
    state.get_object_mut(equipment).unwrap().attached_to = Some(ObjectId(500));

    assert!(check_state_based_actions(&mut state, &reg));
    assert_eq!(state.get_object(aura).unwrap().zone, Zone::Graveyard);
    let e = state.get_object(equipment).unwrap();
    assert_eq!(e.zone, Zone::Battlefield);
    assert_eq!(e.attached_to, None);
}

#[test]
fn curse_on_a_player_stays() {
    let reg = registry();
    let mut state = GameState::new(2);
    let pacifism = reg.get_id_by_name("Pacifism").unwrap();
    let aura = state.create_object(pacifism, PlayerId(0), Zone::Battlefield, None, None);
    {
        let o = state.get_object_mut(aura).unwrap();
        o.attached_to = Some(ObjectId(500));
        o.attached_to_player = Some(PlayerId(1));
    }
    assert!(!check_state_based_actions(&mut state, &reg));
    assert_eq!(state.get_object(aura).unwrap().zone, Zone::Battlefield);
}

#[test]
fn plus_and_minus_counters_cancel() {
    let reg = registry();
    let mut state = GameState::new(2);
    let id = state.create_object(CardId(9999), PlayerId(0), Zone::Battlefield, Some(3), Some(3));
    state.add_counters(id, CounterType::PlusOnePlusOne, 2);
    state.add_counters(id, CounterType::MinusOneMinusOne, 1);

    assert!(check_state_based_actions(&mut state, &reg));
    assert_eq!(state.get_counter_count(id, CounterType::PlusOnePlusOne), 1);
    assert_eq!(state.get_counter_count(id, CounterType::MinusOneMinusOne), 0);
}

#[test]
fn planeswalker_without_loyalty_goes_to_graveyard() {
    let reg = registry();
    let mut state = GameState::new(2);
    let id = state.create_object(CardId(9999), PlayerId(0), Zone::Battlefield, None, None);
    {
        let o = state.get_object_mut(id).unwrap();
        o.card_types = vec![CardType::Planeswalker];
        o.name = String::from("Garruk");
    }
    assert!(check_state_based_actions(&mut state, &reg));
    assert_eq!(state.get_object(id).unwrap().zone, Zone::Graveyard);
    assert!(state.game_log.iter().any(|l| l.message == "Garruk (#1) has 0 loyalty and is put into graveyard"));
}

#[test]
fn legend_rule_asks_which_to_keep() {
    let reg = registry();
    let mut state = GameState::new(2);
    let a = state.create_object(CardId(9999), PlayerId(0), Zone::Battlefield, None, None);
    let b = state.create_object(CardId(9999), PlayerId(0), Zone::Battlefield, None, None);
    for id in [a, b] {
        let o = state.get_object_mut(id).unwrap();
        o.is_legendary = true;
        o.name = String::from("Thalia");
    }
    assert!(check_state_based_actions(&mut state, &reg));
    match &state.awaiting_action {
        Some(AwaitingAction::ResolutionChoice { player, source, choice }) => {
            assert_eq!(*player, PlayerId(0));
            assert_eq!(*source, a);
            match choice {
                ResolutionChoiceKind::ChooseTarget { description, options, optional, effect } => {
                    assert_eq!(description, "Legend rule: choose which Thalia to keep");
                    assert_eq!(options, &vec![Target::Object(a), Target::Object(b)]);
                    assert!(!optional);
                    assert!(matches!(effect, PendingEffect::LegendRuleKeep { player: PlayerId(0), .. }));
                }
                _ => panic!("expected a target choice"),
            }
        }
        _ => panic!("expected the legend rule question"),
    }
}

#[test]
fn legends_with_different_controllers_coexist() {
    let reg = registry();
    let mut state = GameState::new(2);
    let a = state.create_object(CardId(9999), PlayerId(0), Zone::Battlefield, None, None);
    let b = state.create_object(CardId(9999), PlayerId(1), Zone::Battlefield, None, None);
    for id in [a, b] {
        let o = state.get_object_mut(id).unwrap();
        o.is_legendary = true;
        o.name = String::from("Thalia");
    }
    assert!(!check_state_based_actions(&mut state, &reg));
    assert!(state.awaiting_action.is_none());
}

#[test]
fn token_off_the_battlefield_ceases_to_exist() {
    let reg = registry();
    let mut state = GameState::new(2);
    let id = state.create_object(CardId(9999), PlayerId(0), Zone::Graveyard, Some(1), Some(1));
    state.get_object_mut(id).unwrap().is_token = true;
    assert!(check_state_based_actions(&mut state, &reg));
    assert!(state.get_object(id).is_none());
}

#[test]
fn both_players_out_is_a_draw() {
    let reg = registry();
    let mut state = GameState::new(2);
    state.players[0].life = 0;
    state.players[1].life = -3;
    assert!(check_state_based_actions(&mut state, &reg));
    assert_eq!(state.result, Some(mtg_engine::state::GameResult::Draw));
}

#[test]
fn state_based_actions_reach_a_fixed_point() {
    let reg = registry();
    let mut state = GameState::new(2);
    let id = state.create_object(CardId(9999), PlayerId(0), Zone::Battlefield, Some(2), Some(2));
    state.get_object_mut(id).unwrap().damage_marked = 5;
    assert!(check_state_based_actions(&mut state, &reg));
    assert!(!check_state_based_actions(&mut state, &reg));
}

// ---- control ----

#[test]
fn control_follows_the_source_and_returns_when_it_leaves() {
    let reg = registry();
    let mut state = GameState::new(2);
    let source = state.create_object(CardId(9999), PlayerId(1), Zone::Battlefield, Some(1), Some(1));
    let stolen = state.create_object(CardId(9999), PlayerId(0), Zone::Battlefield, Some(2), Some(2));

    assert_eq!(state.derived_controller(stolen), Some(PlayerId(0)));
    state.gain_control_while_source_controlled(stolen, source, &reg);
    assert_eq!(state.get_object(stolen).unwrap().controller, PlayerId(1));
    assert_eq!(state.control_effects.len(), 1);
    assert_eq!(state.derived_controller(stolen), Some(PlayerId(1)));

    assert!(!state.expire_control_effects());
    state.move_object(source, Zone::Graveyard, &reg);
    assert!(state.expire_control_effects());
    assert_eq!(state.get_object(stolen).unwrap().controller, PlayerId(0));
    assert!(state.control_effects.is_empty());
    assert!(state.game_log.iter().any(|l| l.message.ends_with("returns to p0: the control effect's condition no longer holds")));
}

#[test]
fn control_timestamps_count_up() {
    let mut state = GameState::new(2);
    let t1 = state.next_control_timestamp();
    let t2 = state.next_control_timestamp();
    assert_eq!(t2, t1 + 1);
    assert_eq!(state.next_effect_timestamp, t2);
}

#[test]
fn base_controller_is_who_put_it_there() {
    let mut state = GameState::new(2);
    let id = state.create_object(CardId(9999), PlayerId(1), Zone::Battlefield, None, None);
    assert_eq!(state.base_controller(id), Some(PlayerId(1)));
    assert_eq!(state.base_controller(ObjectId(77)), None);
}

// ---- protection and hexproof ----

#[test]
fn player_hexproof_and_protection_come_from_permanents() {
    let mut reg = registry();
    reg.cards[0].grants_player_hexproof = true;
    reg.cards[0].grants_player_protection_from = vec![Color::White];
    let mut state = GameState::new(2);
    let bears = reg.get_id_by_name("Grizzly Bears").unwrap();
    assert!(!state.player_has_hexproof(PlayerId(0), &reg));
    state.create_object(bears, PlayerId(0), Zone::Battlefield, Some(2), Some(2));
    assert!(state.player_has_hexproof(PlayerId(0), &reg));
    assert!(!state.player_has_hexproof(PlayerId(1), &reg));
    assert!(state.player_has_protection_from(PlayerId(0), Color::White, &reg));
    assert!(!state.player_has_protection_from(PlayerId(0), Color::Green, &reg));

    let pacifism = reg.get_id_by_name("Pacifism").unwrap();
    let aura = state.create_object(pacifism, PlayerId(1), Zone::Hand, None, None);
    assert!(!state.player_can_be_enchanted_by(aura, PlayerId(0), &reg));
    assert!(state.player_can_be_enchanted_by(aura, PlayerId(1), &reg));
}

// ---- the battlefield ----

#[test]
fn snapshot_lists_only_creatures_of_the_controller() {
    let reg = registry();
    let mut state = GameState::new(2);
    let a = state.create_object(CardId(9999), PlayerId(0), Zone::Battlefield, Some(1), Some(1));
    state.create_object(CardId(9999), PlayerId(1), Zone::Battlefield, Some(1), Some(1));
    state.create_object(CardId(9999), PlayerId(0), Zone::Hand, Some(1), Some(1));
    let pacifism = reg.get_id_by_name("Pacifism").unwrap();
    state.create_object(pacifism, PlayerId(0), Zone::Battlefield, None, None);
    assert_eq!(state.creatures_controlled_snapshot(PlayerId(0), &reg), vec![a]);
}

#[test]
fn tap_cost_needs_an_untapped_unsick_permanent() {
    let reg = registry();
    let mut state = GameState::new(2);
    let id = state.create_object(CardId(9999), PlayerId(0), Zone::Battlefield, Some(1), Some(1));
    assert!(!state.can_pay_tap_cost(id, &reg));
    state.get_object_mut(id).unwrap().summoning_sick = false;
    assert!(state.can_pay_tap_cost(id, &reg));
    state.get_object_mut(id).unwrap().tapped = true;
    assert!(!state.can_pay_tap_cost(id, &reg));
    let land = state.create_object(CardId(2), PlayerId(0), Zone::Battlefield, None, None);
    assert!(state.can_pay_tap_cost(land, &reg));
}

#[test]
fn set_base_pt_records_an_effect() {
    let mut state = GameState::new(2);
    let id = state.create_object(CardId(9999), PlayerId(0), Zone::Battlefield, Some(1), Some(1));
    state.set_base_pt(id, Some(4), None);
    assert_eq!(state.set_pt_effects.len(), 1);
    assert_eq!(state.set_pt_effects[0].power, Some(4));
    assert_eq!(state.set_pt_effects[0].toughness, None);
    assert_eq!(state.set_pt_effects[0].timestamp, state.next_effect_timestamp);
}

#[test]
fn latest_set_pt_wins_and_an_unset_side_keeps_its_value() {
    let reg = registry();
    let mut state = GameState::new(2);
    let id = state.create_object(CardId(9999), PlayerId(0), Zone::Battlefield, Some(1), Some(1));
    state.set_base_pt(id, Some(4), Some(4));
    assert_eq!(state.effective_power(id, &reg), Some(4));
    assert_eq!(state.effective_toughness(id, &reg), Some(4));
    state.set_base_pt(id, Some(0), None);
    assert_eq!(state.effective_power(id, &reg), Some(0));
    assert_eq!(state.effective_toughness(id, &reg), Some(4));
}

#[test]
fn the_latest_control_effect_wins() {
    let reg = registry();
    let mut state = GameState::new(2);
    let first = state.create_object(CardId(9999), PlayerId(1), Zone::Battlefield, Some(1), Some(1));
    let second = state.create_object(CardId(9999), PlayerId(0), Zone::Battlefield, Some(1), Some(1));
    let stolen = state.create_object(CardId(9999), PlayerId(0), Zone::Battlefield, Some(2), Some(2));
    state.gain_control_while_source_controlled(stolen, first, &reg);
    assert_eq!(state.get_object(stolen).unwrap().controller, PlayerId(1));
    state.gain_control_while_source_controlled(stolen, second, &reg);
    assert_eq!(state.get_object(stolen).unwrap().controller, PlayerId(0));
    assert_eq!(state.derived_controller(stolen), Some(PlayerId(0)));
    assert_eq!(state.control_effects.len(), 2);
}

#[test]
fn global_and_controlled_effects() {
    let reg = registry();
    let mut state = GameState::new(2);
    let anthem = CardId(7);
    state.create_object(anthem, PlayerId(0), Zone::Battlefield, None, None);
    assert_eq!(state.effects_controlled_by(PlayerId(0), &reg).len(), 1);
    assert_eq!(state.effects_controlled_by(PlayerId(1), &reg).len(), 0);
    assert_eq!(state.global_effects(&reg).len(), 0);
}

// ---- tokens ----

#[test]
fn token_is_named_for_its_subtypes() {
    let reg = registry();
    let mut state = GameState::new(2);
    let ids = state.create_token_with_subtypes("", PlayerId(0), 1, 1, vec![Color::White], vec![CardType::Creature],
        vec![Keyword::Flying], vec![String::from("Spirit")], &reg);
    assert_eq!(ids.len(), 1);
    let t = state.get_object(ids[0]).unwrap();
    assert_eq!(t.name, "Spirit");
    assert!(t.is_token);
    assert_eq!(t.zone, Zone::Battlefield);
    assert!(t.summoning_sick);
    assert_eq!(t.power, Some(1));
    assert_eq!(state.game_log.last().unwrap().message, "p0 created 1 1/1 Spirit token");
}

#[test]
fn doubler_doubles_tokens() {
    let mut reg = registry();
    reg.cards[0].replacement = Some(ReplacementDef::DoublesTokens);
    reg.cards[0].replacement_zones = vec![Zone::Battlefield];
    let mut state = GameState::new(2);
    state.create_object(CardId(1), PlayerId(0), Zone::Battlefield, Some(2), Some(2));
    let ids = state.create_tokens_with_subtypes(3, "", PlayerId(0), 2, 2, vec![], vec![CardType::Creature],
        vec![], vec![String::from("Zombie")], &reg);
    assert_eq!(ids.len(), 6);
    assert_eq!(state.game_log.last().unwrap().message, "p0 created 6 2/2 Zombie tokens");
    let none = state.create_tokens_with_subtypes(0, "", PlayerId(0), 2, 2, vec![], vec![], vec![], vec![], &reg);
    assert!(none.is_empty());
}

#[test]
fn token_copy_takes_the_printed_face() {
    let reg = registry();
    let mut state = GameState::new(2);
    let bears = reg.get_id_by_name("Grizzly Bears").unwrap();
    let src = state.create_object(bears, PlayerId(1), Zone::Battlefield, Some(2), Some(2));
    let copy = state.create_token_copy(src, PlayerId(0), &reg);
    let t = state.get_object(copy).unwrap();
    assert_eq!(t.name, "Grizzly Bears");
    assert_eq!(t.card_id, bears);
    assert!(t.is_token);
    assert_eq!(t.controller, PlayerId(0));
    assert_eq!(state.create_token_copy(ObjectId(999), PlayerId(0), &reg), ObjectId(0));
}

#[test]
fn create_token_makes_one() {
    let reg = registry();
    let mut state = GameState::new(2);
    let ids = state.create_token("Soldier", PlayerId(1), 1, 1, vec![Color::White], vec![CardType::Creature], vec![], &reg);
    assert_eq!(ids.len(), 1);
    assert_eq!(state.get_object(ids[0]).unwrap().owner, PlayerId(1));
}

// ---- entries waiting on a copy choice ----

#[test]
fn recording_a_choice_makes_the_entry() {
    let reg = registry();
    let mut state = GameState::new(2);
    let id = state.create_object(CardId(1), PlayerId(0), Zone::Hand, Some(2), Some(2));
    state.pending_entry_choices.push(id);
    record_entry_choice(&mut state, id, EnterAsCopyChoice::Declined, &reg);
    assert!(state.pending_entry_choices.is_empty());
    let o = state.get_object(id).unwrap();
    assert_eq!(o.zone, Zone::Battlefield);
    assert_eq!(o.entering_copy_choice, EnterAsCopyChoice::Declined);
}

#[test]
fn nothing_to_copy_enters_as_itself() {
    let reg = registry();
    let mut state = GameState::new(2);
    let id = state.create_object(CardId(1), PlayerId(0), Zone::Hand, Some(0), Some(0));
    state.pending_entry_choices.push(id);
    process_pending_entry_choices(&mut state, &reg);
    assert!(state.pending_entry_choices.is_empty());
    assert!(state.awaiting_action.is_none());
    assert_eq!(state.get_object(id).unwrap().zone, Zone::Battlefield);
}

#[test]
fn copy_choice_is_asked_and_kept_current() {
    let reg = registry();
    let mut state = GameState::new(2);
    let creature = state.create_object(CardId(9999), PlayerId(1), Zone::Battlefield, Some(3), Some(3));
    let id = state.create_object(CardId(1), PlayerId(0), Zone::Hand, Some(0), Some(0));
    state.pending_entry_choices.push(id);
    process_pending_entry_choices(&mut state, &reg);
    match &state.awaiting_action {
        Some(AwaitingAction::ResolutionChoice { player, choice: ResolutionChoiceKind::ChooseTarget { options, optional, description, .. }, .. }) => {
            assert_eq!(*player, PlayerId(0));
            assert_eq!(options, &vec![Target::Object(creature)]);
            assert!(*optional);
            assert!(description.ends_with("(#2): you may have it enter as a copy of a creature on the battlefield"));
        }
        _ => panic!("expected the copy question"),
    }
    refresh_pending_entry_choice(&mut state, &reg);
    assert!(state.awaiting_action.is_some());
    state.move_object(creature, Zone::Graveyard, &reg);
    refresh_pending_entry_choice(&mut state, &reg);
    assert!(state.awaiting_action.is_none());
    assert_eq!(state.get_object(id).unwrap().zone, Zone::Battlefield);
}

// ---- trigger descriptions ----

#[test]
fn trigger_descriptions_come_from_the_card() {
    let mut reg = registry();
    let ranger = reg.get_id_by_name("Daybreak Ranger").unwrap();
    assert_eq!(trigger_description(&reg, ranger, TriggerKind::SelfDies, false), "");
    assert!(!card_has_trigger(&reg, ranger, TriggerKind::SelfDies));
    reg.cards[0].front.triggered_abilities.push(mtg_engine::cards::TriggeredAbilityDef {
        kind: TriggerKind::SelfDies,
        description: String::from("When this dies, draw a card."),
        target_requirement: None,
    });
    assert_eq!(trigger_description(&reg, CardId(1), TriggerKind::SelfDies, false), "When this dies, draw a card.");
    assert!(card_has_trigger(&reg, CardId(1), TriggerKind::SelfDies));
    assert_eq!(face_trigger_description(&reg, CardId(1), TriggerKind::SelfDies, true), "");
    assert_eq!(face_trigger_description(&reg, CardId(1), TriggerKind::SelfDies, false), "When this dies, draw a card.");
}

// ---- laws on concrete values ----

#[test]
fn tap_then_untap_restores_the_permanent() {
    let mut state = GameState::new(2);
    let id = state.create_object(CardId(9999), PlayerId(0), Zone::Battlefield, Some(1), Some(1));
    let before = state.get_object(id).unwrap().tapped;
    state.tap(id);
    assert!(state.get_object(id).unwrap().tapped);
    state.untap(id);
    assert_eq!(state.get_object(id).unwrap().tapped, before);
    assert_eq!(state.events.len(), 2);
}

#[test]
fn gaining_then_losing_life_restores_it() {
    let mut state = GameState::new(2);
    let life = state.players[1].life;
    state.gain_life(PlayerId(1), 7);
    assert_eq!(state.players[1].life, life + 7);
    state.lose_life(PlayerId(1), 7);
    assert_eq!(state.players[1].life, life);
}

#[test]
fn adding_then_removing_counters_restores_the_count() {
    let mut state = GameState::new(2);
    let id = state.create_object(CardId(9999), PlayerId(0), Zone::Battlefield, Some(1), Some(1));
    state.add_counters(id, CounterType::Charge, 2);
    state.add_counters(id, CounterType::Charge, 3);
    assert_eq!(state.get_counter_count(id, CounterType::Charge), 5);
    state.remove_counters(id, CounterType::Charge, 3);
    assert_eq!(state.get_counter_count(id, CounterType::Charge), 2);
}

#[test]
fn shuffle_keeps_every_element() {
    let mut state = GameState::new(2);
    let mut items: Vec<u32> = (0..20).collect();
    state.shuffle(&mut items);
    let mut sorted = items.clone();
    sorted.sort();
    assert_eq!(sorted, (0..20).collect::<Vec<u32>>());
}

#[test]
fn derived_controller_without_effects_is_the_base_one() {
    let mut state = GameState::new(2);
    let id = state.create_object(CardId(9999), PlayerId(1), Zone::Battlefield, None, None);
    assert_eq!(state.derived_controller(id), Some(PlayerId(1)));
    assert_eq!(state.derived_controller(ObjectId(99)), None);
}

#[test]
fn delayed_exile_takes_the_token_off_the_battlefield() {
    let reg = registry();
    let mut state = GameState::new(2);
    let id = state.create_object(CardId(9999), PlayerId(0), Zone::Battlefield, Some(1), Some(1));
    mtg_engine::triggers::exile_delayed_token(&mut state, id, &reg);
    assert_eq!(state.get_object(id).unwrap().zone, Zone::Exile);
    assert_eq!(state.game_log.last().unwrap().message, "Token exiled by delayed end-of-combat trigger");
    let log_len = state.game_log.len();
    mtg_engine::triggers::exile_delayed_token(&mut state, id, &reg);
    assert_eq!(state.game_log.len(), log_len);
}
