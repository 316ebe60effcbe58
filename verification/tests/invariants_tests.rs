use mtg_engine::cards::CardRegistry;
use mtg_engine::events::GameEvent;
use mtg_engine::ids::{CardId, PlayerId};
use mtg_engine::invariants::{check_core, check_settled, check_transition};
use mtg_engine::state::GameState;
use mtg_engine::types::Zone;

#[test]
fn invariants_hold_in_a_fresh_game() {
    let reg = CardRegistry::with_all_cards();
    let mut state = GameState::new(2);
    state.create_object(CardId(1), PlayerId(0), Zone::Battlefield, Some(2), Some(2));
    state.create_object(CardId(2), PlayerId(1), Zone::Hand, None, None);
    assert!(check_core(&state, &reg).is_empty());
    assert!(check_settled(&state, &reg).is_empty());
}

#[test]
fn core_invariants_catch_a_self_attachment() {
    let reg = CardRegistry::with_all_cards();
    let mut state = GameState::new(2);
    let id = state.create_object(CardId(4), PlayerId(0), Zone::Battlefield, None, None);
    state.get_object_mut(id).unwrap().attached_to = Some(id);
    assert_eq!(check_core(&state, &reg), vec!["1 () sits in an attachment cycle".to_string()]);
}

#[test]
fn settled_invariants_catch_a_token_off_the_battlefield_and_a_dead_creature() {
    let reg = CardRegistry::with_all_cards();
    let mut state = GameState::new(2);
    let token = state.create_object(CardId(9999), PlayerId(0), Zone::Graveyard, Some(1), Some(1));
    state.get_object_mut(token).unwrap().is_token = true;
    let bear = state.create_object(CardId(1), PlayerId(0), Zone::Battlefield, Some(2), Some(2));
    state.get_object_mut(bear).unwrap().damage_marked = 2;
    state.get_object_mut(bear).unwrap().damaged_by = vec![bear];
    assert!(check_core(&state, &reg).is_empty());
    assert_eq!(
        check_settled(&state, &reg),
        vec![
            "token 1 () still exists in Graveyard".to_string(),
            "2 () alive with 2 damage on toughness 2".to_string(),
        ]
    );
}

#[test]
fn settled_invariants_catch_a_player_who_should_have_lost() {
    let reg = CardRegistry::with_all_cards();
    let mut state = GameState::new(2);
    state.players[1].life = 0;
    assert_eq!(check_settled(&state, &reg), vec!["p1 at 0 life has not lost".to_string()]);
}

#[test]
fn transition_invariants_catch_a_vanished_card() {
    let reg = CardRegistry::with_all_cards();
    let mut prev = GameState::new(2);
    prev.create_object(CardId(1), PlayerId(0), Zone::Battlefield, Some(2), Some(2));
    let mut same = GameState::new(2);
    same.create_object(CardId(1), PlayerId(0), Zone::Battlefield, Some(2), Some(2));
    assert!(check_transition(&prev, &same, &reg).is_empty());
    let empty = GameState::new(2);
    assert_eq!(
        check_transition(&prev, &empty, &reg),
        vec![
            "card #1 () ceased to exist (CR 108.3)".to_string(),
            "next_object_id went back 2 -> 1".to_string(),
        ]
    );
}

#[test]
fn exile_lists_only_the_players_own_cards() {
    let mut state = GameState::new(2);
    state.create_object(CardId(1), PlayerId(0), Zone::Exile, None, None);
    state.create_object(CardId(1), PlayerId(1), Zone::Exile, None, None);
    assert_eq!(state.objects_in_zone(Zone::Exile, PlayerId(0)).len(), 1);
}

#[test]
fn core_invariants_catch_a_library_card_missing_from_the_order() {
    let reg = CardRegistry::with_all_cards();
    let mut state = GameState::new(2);
    state.create_object(CardId(1), PlayerId(0), Zone::Library, None, None);
    let v = check_core(&state, &reg);
    assert!(v.contains(&"p0: 1 () in library zone but not in library_order".to_string()));
    assert_eq!(v.len(), 1);
}

#[test]
fn settled_invariants_report_the_core_violations_first() {
    let reg = CardRegistry::with_all_cards();
    let mut state = GameState::new(2);
    state.create_object(CardId(1), PlayerId(0), Zone::Library, None, None);
    state.players[0].life = -3;
    let core = check_core(&state, &reg);
    let settled = check_settled(&state, &reg);
    assert_eq!(settled[..core.len()], core[..]);
    assert_eq!(
        settled,
        vec![
            "p0: 1 () in library zone but not in library_order".to_string(),
            "p0 at -3 life has not lost".to_string(),
        ]
    );
}

#[test]
fn core_invariants_name_a_stack_entry_without_its_spell() {
    let reg = CardRegistry::with_all_cards();
    let mut state = GameState::new(2);
    let id = state.create_object(CardId(1), PlayerId(0), Zone::Hand, None, None);
    state.stack.push(mtg_engine::state::StackEntry::Spell(id));
    assert_eq!(check_core(&state, &reg), vec!["stack entry Spell(1) is in zone Hand".to_string()]);
}

#[test]
fn core_invariants_catch_one_creature_blocking_twice() {
    let reg = CardRegistry::with_all_cards();
    let mut state = GameState::new(2);
    let a1 = state.create_object(CardId(1), PlayerId(0), Zone::Battlefield, Some(2), Some(2));
    let a2 = state.create_object(CardId(1), PlayerId(0), Zone::Battlefield, Some(2), Some(2));
    let b = state.create_object(CardId(1), PlayerId(1), Zone::Battlefield, Some(2), Some(2));
    let mut combat = mtg_engine::state::CombatState::new();
    combat.attackers.push((a1, PlayerId(1)));
    combat.attackers.push((a2, PlayerId(1)));
    combat.blocker_assignments.push((a1, vec![b, b]));
    combat.blocker_assignments.push((a2, vec![b]));
    state.combat = Some(combat);
    assert_eq!(
        check_core(&state, &reg),
        vec![
            "blocker 3 listed twice against attacker 1".to_string(),
            "blocker 3 assigned to attackers 1 and 2 at once (CR 509.1b)".to_string(),
        ]
    );
}

#[test]
fn settled_invariants_allow_priority_with_nothing_queued() {
    let reg = CardRegistry::with_all_cards();
    let mut state = GameState::new(2);
    state.step = mtg_engine::types::Step::PrecombatMain;
    state.priority_player = Some(PlayerId(0));
    state.awaiting_action = None;
    assert!(check_settled(&state, &reg).is_empty());
}

#[test]
fn core_invariants_follow_the_life_chain_of_the_current_action() {
    let reg = CardRegistry::with_all_cards();
    let mut state = GameState::new(2);
    state.events.push(GameEvent::LifeChanged { player: PlayerId(0), old: 20, new_life: 17 });
    state.events.push(GameEvent::LifeChanged { player: PlayerId(0), old: 18, new_life: 15 });
    state.players[0].life = 20;
    assert_eq!(
        check_core(&state, &reg),
        vec![
            "p0: LifeChanged chain breaks (17 -> event starting at 18)".to_string(),
            "p0: last LifeChanged says 15 but life is 20".to_string(),
        ]
    );
    state.players[0].life = 15;
    state.events[1] = GameEvent::LifeChanged { player: PlayerId(0), old: 17, new_life: 15 };
    assert!(check_core(&state, &reg).is_empty());
}

#[test]
fn core_invariants_catch_an_attacker_declared_twice() {
    let reg = CardRegistry::with_all_cards();
    let mut state = GameState::new(2);
    let a = state.create_object(CardId(1), PlayerId(0), Zone::Battlefield, Some(2), Some(2));
    state.events.push(GameEvent::AttackersDeclared { attackers: vec![(a, PlayerId(1)), (a, PlayerId(1))] });
    assert_eq!(check_core(&state, &reg), vec!["AttackersDeclared lists attacker 1 more than once".to_string()]);
}

#[test]
fn core_invariants_catch_a_prompt_for_no_player() {
    let reg = CardRegistry::with_all_cards();
    let mut state = GameState::new(2);
    state.awaiting_action = Some(mtg_engine::state::AwaitingAction::MulliganDecision { player: PlayerId(5) });
    assert_eq!(check_core(&state, &reg), vec!["awaiting_action prompts out-of-range p5".to_string()]);
}

#[test]
fn core_invariants_check_the_turn_records() {
    let reg = CardRegistry::with_all_cards();
    let mut state = GameState::new(2);
    state.turn_number = 3;
    state.players[1].lost = true;
    assert_eq!(
        check_core(&state, &reg),
        vec![
            "is_first_turn=true on turn 3".to_string(),
            "p1: lost=true but loss_reason=None".to_string(),
        ]
    );
}

#[test]
fn settled_invariants_match_the_result_with_the_losses() {
    let reg = CardRegistry::with_all_cards();
    let mut state = GameState::new(2);
    state.players[0].lost = true;
    state.players[0].loss_reason = Some(mtg_engine::events::LossReason::Conceded);
    assert_eq!(
        check_settled(&state, &reg),
        vec!["a player has lost but the game has no result (CR 104.2a)".to_string()]
    );
    state.result = Some(mtg_engine::state::GameResult::Winner(PlayerId(1)));
    assert!(check_settled(&state, &reg).is_empty());
}

#[test]
fn settled_invariants_check_who_controls_the_combatants() {
    let reg = CardRegistry::with_all_cards();
    let mut state = GameState::new(2);
    let a = state.create_object(CardId(1), PlayerId(1), Zone::Battlefield, Some(2), Some(2));
    let b = state.create_object(CardId(1), PlayerId(1), Zone::Battlefield, Some(2), Some(2));
    state.step = mtg_engine::types::Step::DeclareAttackers;
    let mut combat = mtg_engine::state::CombatState::new();
    combat.attackers.push((a, PlayerId(0)));
    combat.blocker_assignments.push((a, vec![b]));
    combat.any_attackers_declared = true;
    state.combat = Some(combat);
    assert!(check_core(&state, &reg).is_empty());
    assert_eq!(
        check_settled(&state, &reg),
        vec![
            "attacker 1 () is controlled by p1, not the active player".to_string(),
            "blocker 2 () is controlled by p1, not the defending player p0".to_string(),
            "attacker #1 has blockers but is not marked blocked (CR 509.1h)".to_string(),
        ]
    );
}

#[test]
fn core_invariants_catch_battlefield_records_off_the_battlefield() {
    let reg = CardRegistry::with_all_cards();
    let mut state = GameState::new(2);
    let id = state.create_object(CardId(1), PlayerId(0), Zone::Graveyard, None, None);
    state.get_object_mut(id).unwrap().attacked_on_turn = Some(1);
    state.get_object_mut(id).unwrap().controller = PlayerId(1);
    assert_eq!(
        check_core(&state, &reg),
        vec![
            "1 () in Graveyard is controlled by p1 but owned by p0 (CR 108.4)".to_string(),
            "1 () in Graveyard remembers attacking".to_string(),
        ]
    );
}

#[test]
fn core_invariants_check_the_players_the_bookkeeping_names() {
    let reg = CardRegistry::with_all_cards();
    let mut state = GameState::new(2);
    state.control_effects.push(mtg_engine::state::ControlEffect {
        object: mtg_engine::ids::ObjectId(4),
        controller: PlayerId(7),
        original_controller: PlayerId(0),
        source: mtg_engine::ids::ObjectId(5),
        source_controller: PlayerId(1),
        timestamp: 1,
    });
    state.book.num_spells_cast_this_turn.push((PlayerId(9), 1));
    assert_eq!(
        check_core(&state, &reg),
        vec![
            "control effect over #4 names p7 who is not a player".to_string(),
            "spell count for p9 who is not a player".to_string(),
        ]
    );
}
