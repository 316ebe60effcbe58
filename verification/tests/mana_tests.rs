use mtg_engine::cards::ManaAbilityDef;
use mtg_engine::ids::ObjectId;
use mtg_engine::mana::{auto_pay, can_pay, compute_autotap, ManaSource, ManaSourceKind};
use mtg_engine::types::{Color, ManaCost, ManaPool, ManaSymbol, ManaType};

// ---- auto_pay tests ----

#[test]
fn pay_simple_colored() {
    let mut pool = ManaPool::new();
    pool.add(ManaType::Green, 2);

    let cost = ManaCost::new(vec![
        ManaSymbol::Colored(Color::Green),
        ManaSymbol::Colored(Color::Green),
    ]);

    assert!(can_pay(&pool, &cost));
    assert!(auto_pay(&mut pool, &cost).is_ok());
    assert_eq!(pool.total(), 0);
}

#[test]
fn pay_generic_plus_colored() {
    let mut pool = ManaPool::new();
    pool.add(ManaType::Red, 2);

    // {1}{R}
    let cost = ManaCost::new(vec![
        ManaSymbol::Generic(1),
        ManaSymbol::Colored(Color::Red),
    ]);

    assert!(can_pay(&pool, &cost));
    assert!(auto_pay(&mut pool, &cost).is_ok());
    assert_eq!(pool.total(), 0);
}

#[test]
fn insufficient_mana() {
    let mut pool = ManaPool::new();
    pool.add(ManaType::Green, 1);

    let cost = ManaCost::new(vec![
        ManaSymbol::Colored(Color::Green),
        ManaSymbol::Colored(Color::Green),
    ]);

    assert!(!can_pay(&pool, &cost));
}

#[test]
fn pay_generic_with_mixed_pool() {
    let mut pool = ManaPool::new();
    pool.add(ManaType::Red, 1);
    pool.add(ManaType::Green, 2);

    // {2}{G} — should pay G from green, then 2 generic from remaining green + red
    let cost = ManaCost::new(vec![
        ManaSymbol::Generic(2),
        ManaSymbol::Colored(Color::Green),
    ]);

    assert!(can_pay(&pool, &cost));
    assert!(auto_pay(&mut pool, &cost).is_ok());
    assert_eq!(pool.total(), 0);
}

#[test]
fn wrong_color() {
    let pool_with_red = {
        let mut p = ManaPool::new();
        p.add(ManaType::Red, 2);
        p
    };

    let cost_gg = ManaCost::new(vec![
        ManaSymbol::Colored(Color::Green),
        ManaSymbol::Colored(Color::Green),
    ]);

    assert!(!can_pay(&pool_with_red, &cost_gg));
}

// ---- autotap tests ----

fn make_source(id: u64, kind: ManaSourceKind, abilities: Vec<ManaAbilityDef>) -> ManaSource {
    ManaSource {
        object_id: ObjectId(id),
        abilities,
        source_kind: kind,
    }
}

fn mono_ability(mana_type: ManaType) -> ManaAbilityDef {
    ManaAbilityDef {
        ability_index: 0,
        description: format!("Add {:?}", mana_type),
        produced: vec![(mana_type, 1)],
        requires_tap: true,
        has_side_effects: false,
    }
}

fn dual_abilities(mt1: ManaType, mt2: ManaType) -> Vec<ManaAbilityDef> {
    vec![
        ManaAbilityDef {
            ability_index: 0,
            description: format!("Add {:?}", mt1),
            produced: vec![(mt1, 1)],
            requires_tap: true,
            has_side_effects: false,
        },
        ManaAbilityDef {
            ability_index: 1,
            description: format!("Add {:?}", mt2),
            produced: vec![(mt2, 1)],
            requires_tap: true,
            has_side_effects: false,
        },
    ]
}

#[test]
fn autotap_basic_three_forests() {
    // Cost {1}{G}{G}, 3 Forests available.
    let cost = ManaCost::new(vec![
        ManaSymbol::Generic(1),
        ManaSymbol::Colored(Color::Green),
        ManaSymbol::Colored(Color::Green),
    ]);
    let sources = vec![
        make_source(1, ManaSourceKind::BasicMana, vec![mono_ability(ManaType::Green)]),
        make_source(2, ManaSourceKind::BasicMana, vec![mono_ability(ManaType::Green)]),
        make_source(3, ManaSourceKind::BasicMana, vec![mono_ability(ManaType::Green)]),
    ];
    let result = compute_autotap(&cost, &ManaPool::new(), &sources, &[]);
    assert!(result.is_some());
    let plan = result.unwrap();
    assert_eq!(plan.len(), 3);
}

#[test]
fn autotap_prefers_mono_over_dual() {
    // Cost {G}, sources: Forest + Hinterland Harbor (G/U). Should tap Forest.
    let cost = ManaCost::new(vec![ManaSymbol::Colored(Color::Green)]);
    let sources = vec![
        make_source(1, ManaSourceKind::BasicMana, vec![mono_ability(ManaType::Green)]),
        make_source(2, ManaSourceKind::NonBasicMana, dual_abilities(ManaType::Green, ManaType::Blue)),
    ];
    let plan = compute_autotap(&cost, &ManaPool::new(), &sources, &[]).unwrap();
    assert_eq!(plan.len(), 1);
    assert_eq!(plan[0].0, ObjectId(1)); // Forest, not Harbor
}

#[test]
fn autotap_opportunity_cost_tiers() {
    // Cost {G}, sources: Forest (BasicMana) + Wolf Run land (HasUtilityAbility).
    // Both produce green. Should tap Forest.
    let cost = ManaCost::new(vec![ManaSymbol::Colored(Color::Green)]);
    let sources = vec![
        make_source(1, ManaSourceKind::HasUtilityAbility, vec![mono_ability(ManaType::Green)]),
        make_source(2, ManaSourceKind::BasicMana, vec![mono_ability(ManaType::Green)]),
    ];
    let plan = compute_autotap(&cost, &ManaPool::new(), &sources, &[]).unwrap();
    assert_eq!(plan[0].0, ObjectId(2)); // BasicMana Forest
}

#[test]
fn autotap_creature_deprioritized() {
    // Cost {W}, sources: Plains (BasicMana) + Avacyn's Pilgrim (Creature).
    // Should tap Plains.
    let cost = ManaCost::new(vec![ManaSymbol::Colored(Color::White)]);
    let sources = vec![
        make_source(1, ManaSourceKind::Creature, vec![mono_ability(ManaType::White)]),
        make_source(2, ManaSourceKind::BasicMana, vec![mono_ability(ManaType::White)]),
    ];
    let plan = compute_autotap(&cost, &ManaPool::new(), &sources, &[]).unwrap();
    assert_eq!(plan[0].0, ObjectId(2)); // Plains
}

#[test]
fn autotap_creature_used_when_only_source() {
    // Cost {W}, only source is Avacyn's Pilgrim. Must tap it.
    let cost = ManaCost::new(vec![ManaSymbol::Colored(Color::White)]);
    let sources = vec![
        make_source(1, ManaSourceKind::Creature, vec![mono_ability(ManaType::White)]),
    ];
    let plan = compute_autotap(&cost, &ManaPool::new(), &sources, &[]).unwrap();
    assert_eq!(plan[0].0, ObjectId(1));
}

#[test]
fn autotap_side_effects_last() {
    // Cost {1}, sources: Sol Ring (BasicMana, 2 colorless) + Deranged Assistant (HasSideEffects, 1 colorless).
    // Should tap Sol Ring.
    let cost = ManaCost::new(vec![ManaSymbol::Generic(1)]);
    let sol_ring = ManaAbilityDef {
        ability_index: 0,
        description: "Add {C}{C}".into(),
        produced: vec![(ManaType::Colorless, 2)],
        requires_tap: true,
        has_side_effects: false,
    };
    let deranged = ManaAbilityDef {
        ability_index: 0,
        description: "Add {C}".into(),
        produced: vec![(ManaType::Colorless, 1)],
        requires_tap: true,
        has_side_effects: true,
    };
    let sources = vec![
        make_source(1, ManaSourceKind::HasSideEffects, vec![deranged]),
        make_source(2, ManaSourceKind::BasicMana, vec![sol_ring]),
    ];
    let plan = compute_autotap(&cost, &ManaPool::new(), &sources, &[]).unwrap();
    assert_eq!(plan[0].0, ObjectId(2)); // Sol Ring
}

#[test]
fn autotap_colorless_specific() {
    // Cost {C}, sources: Sol Ring + Forest. Should use Sol Ring (produces colorless).
    let cost = ManaCost::new(vec![ManaSymbol::Colorless(1)]);
    let sol_ring = ManaAbilityDef {
        ability_index: 0,
        description: "Add {C}{C}".into(),
        produced: vec![(ManaType::Colorless, 2)],
        requires_tap: true,
        has_side_effects: false,
    };
    let sources = vec![
        make_source(1, ManaSourceKind::BasicMana, vec![mono_ability(ManaType::Green)]),
        make_source(2, ManaSourceKind::BasicMana, vec![sol_ring]),
    ];
    let plan = compute_autotap(&cost, &ManaPool::new(), &sources, &[]).unwrap();
    assert_eq!(plan[0].0, ObjectId(2)); // Sol Ring
}

#[test]
fn autotap_floating_mana() {
    // Pool has {G}, cost {G}{G}, 1 Forest. Should tap 1 Forest.
    let cost = ManaCost::new(vec![
        ManaSymbol::Colored(Color::Green),
        ManaSymbol::Colored(Color::Green),
    ]);
    let mut pool = ManaPool::new();
    pool.add(ManaType::Green, 1);
    let sources = vec![
        make_source(1, ManaSourceKind::BasicMana, vec![mono_ability(ManaType::Green)]),
    ];
    let plan = compute_autotap(&cost, &pool, &sources, &[]).unwrap();
    assert_eq!(plan.len(), 1);
}

#[test]
fn autotap_multi_mana_source() {
    // Cost {2}, Sol Ring produces 2 colorless. One tap should suffice.
    let cost = ManaCost::new(vec![ManaSymbol::Generic(2)]);
    let sol_ring = ManaAbilityDef {
        ability_index: 0,
        description: "Add {C}{C}".into(),
        produced: vec![(ManaType::Colorless, 2)],
        requires_tap: true,
        has_side_effects: false,
    };
    let sources = vec![
        make_source(1, ManaSourceKind::BasicMana, vec![sol_ring]),
    ];
    let plan = compute_autotap(&cost, &ManaPool::new(), &sources, &[]).unwrap();
    assert_eq!(plan.len(), 1);
}

#[test]
fn autotap_scarcity_ordering() {
    // Cost {G}{U}, sources: Hinterland Harbor (G/U), Forest, Island.
    // Should assign Forest→G, Island→U (not use Harbor for either).
    let cost = ManaCost::new(vec![
        ManaSymbol::Colored(Color::Green),
        ManaSymbol::Colored(Color::Blue),
    ]);
    let sources = vec![
        make_source(1, ManaSourceKind::NonBasicMana, dual_abilities(ManaType::Green, ManaType::Blue)),
        make_source(2, ManaSourceKind::BasicMana, vec![mono_ability(ManaType::Green)]),
        make_source(3, ManaSourceKind::BasicMana, vec![mono_ability(ManaType::Blue)]),
    ];
    let plan = compute_autotap(&cost, &ManaPool::new(), &sources, &[]).unwrap();
    assert_eq!(plan.len(), 2);
    // Should use Forest and Island, not Harbor.
    let ids: Vec<ObjectId> = plan.iter().map(|p| p.0).collect();
    assert!(ids.contains(&ObjectId(2))); // Forest
    assert!(ids.contains(&ObjectId(3))); // Island
}

#[test]
fn autotap_hand_preservation() {
    // Cost {G}, hand has a {U}{G} spell.
    // Sources: Forest (mono G) + Harbor (G/U).
    // Should tap Forest to preserve Harbor's U for the other spell.
    let cost = ManaCost::new(vec![ManaSymbol::Colored(Color::Green)]);
    let hand_costs = vec![ManaCost::new(vec![
        ManaSymbol::Colored(Color::Blue),
        ManaSymbol::Colored(Color::Green),
    ])];
    let sources = vec![
        make_source(1, ManaSourceKind::BasicMana, vec![mono_ability(ManaType::Green)]),
        make_source(2, ManaSourceKind::NonBasicMana, dual_abilities(ManaType::Green, ManaType::Blue)),
    ];
    let plan = compute_autotap(&cost, &ManaPool::new(), &sources, &hand_costs).unwrap();
    assert_eq!(plan[0].0, ObjectId(1)); // Forest, preserving Harbor
}

#[test]
fn autotap_insufficient() {
    // Cost {G}{G}, only 1 Forest. Should return None.
    let cost = ManaCost::new(vec![
        ManaSymbol::Colored(Color::Green),
        ManaSymbol::Colored(Color::Green),
    ]);
    let sources = vec![
        make_source(1, ManaSourceKind::BasicMana, vec![mono_ability(ManaType::Green)]),
    ];
    assert!(compute_autotap(&cost, &ManaPool::new(), &sources, &[]).is_none());
}

#[test]
fn autotap_free_spell() {
    // Cost {0} (empty). Should return empty plan.
    let cost = ManaCost::free();
    let plan = compute_autotap(&cost, &ManaPool::new(), &[], &[]).unwrap();
    assert!(plan.is_empty());
}

#[test]
fn autotap_x_spell_returns_none() {
    // X-cost spells should not be autotapped.
    let cost = ManaCost::new(vec![ManaSymbol::X, ManaSymbol::Colored(Color::Red)]);
    let sources = vec![
        make_source(1, ManaSourceKind::BasicMana, vec![mono_ability(ManaType::Red)]),
    ];
    assert!(compute_autotap(&cost, &ManaPool::new(), &sources, &[]).is_none());
}

#[test]
fn autotap_dual_for_generic() {
    // Cost {1}{G}, sources: Forest + Hinterland Harbor (G/U), hand has {U} spell.
    // Should tap Forest for {G}, and for the generic {1} should tap Harbor
    // but use the U ability (lower hand demand) since hand needs U less... actually
    // hand needs U more. So it should use G ability to preserve U.
    // Wait: hand has {U} spell, so U demand is 1. G demand is 0 (the current spell
    // doesn't count). So for generic, Harbor should produce G (demand 0) not U (demand 1).
    let cost = ManaCost::new(vec![
        ManaSymbol::Generic(1),
        ManaSymbol::Colored(Color::Green),
    ]);
    let hand_costs = vec![ManaCost::new(vec![ManaSymbol::Colored(Color::Blue)])];
    let sources = vec![
        make_source(1, ManaSourceKind::BasicMana, vec![mono_ability(ManaType::Green)]),
        make_source(2, ManaSourceKind::NonBasicMana, dual_abilities(ManaType::Green, ManaType::Blue)),
    ];
    let plan = compute_autotap(&cost, &ManaPool::new(), &sources, &hand_costs).unwrap();
    assert_eq!(plan.len(), 2);
    // Forest for the green pip.
    assert_eq!(plan[0].0, ObjectId(1));
    // Harbor for generic, should pick ability 0 (Green, demand=0) over ability 1 (Blue, demand=1).
    assert_eq!(plan[1].0, ObjectId(2));
    assert_eq!(plan[1].1, 0); // Green ability
}

#[test]
fn autotap_accepts_abilities_that_share_an_index() {
    // Both abilities carry index 0; the red one is found by its color, and
    // the plan names it by its index.
    let cost = ManaCost::new(vec![ManaSymbol::Colored(Color::Red)]);
    let mut red = mono_ability(ManaType::Red);
    red.ability_index = 0;
    let sources = vec![make_source(7, ManaSourceKind::NonBasicMana, vec![mono_ability(ManaType::Green), red])];
    assert_eq!(compute_autotap(&cost, &ManaPool::new(), &sources, &[]), Some(vec![(ObjectId(7), 0)]));
}

#[test]
fn autotap_pays_from_the_pool_beside_a_source_with_no_abilities() {
    let cost = ManaCost::new(vec![ManaSymbol::Colored(Color::Green)]);
    let mut pool = ManaPool::new();
    pool.add(ManaType::Green, 1);
    let sources = vec![make_source(3, ManaSourceKind::NonBasicMana, vec![])];
    assert_eq!(compute_autotap(&cost, &pool, &sources, &[]), Some(vec![]));
}

#[test]
fn autotap_gives_up_on_a_source_with_no_abilities_for_generic_mana() {
    let cost = ManaCost::new(vec![ManaSymbol::Generic(1)]);
    let sources = vec![make_source(3, ManaSourceKind::NonBasicMana, vec![])];
    assert_eq!(compute_autotap(&cost, &ManaPool::new(), &sources, &[]), None);
}

#[test]
fn a_failed_payment_never_adds_mana() {
    let mut pool = ManaPool::new();
    pool.add(ManaType::Green, 1);
    let cost = ManaCost::new(vec![ManaSymbol::Colored(Color::Red), ManaSymbol::Colored(Color::Green)]);
    assert!(auto_pay(&mut pool, &cost).is_err());
    assert!(pool.get(ManaType::Green) <= 1);
    assert_eq!(pool.get(ManaType::Red), 0);
}
